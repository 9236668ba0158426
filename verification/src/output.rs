use vstd::prelude::*;
use vstd::string::*;

verus! {

/// A renderable report: a short code, a location, a source cutout and a
/// message, combined into a header line and a body.
pub trait ConsoleOutput {
    /// The pieces below are rendered from a well-formed value only.
    spec fn out_wf(&self) -> bool;

    /// The report's short code.
    spec fn short_spec(&self) -> Seq<char>;

    /// The report's joined message text.
    spec fn message_spec(&self) -> Seq<char>;

    /// The report's rendered location.
    spec fn location_spec(&self) -> Seq<char>;

    /// The report's rendered source excerpt.
    spec fn cutout_spec(&self) -> Seq<char>;

    /// The report's severity marker.
    spec fn type_spec(&self) -> Seq<char>;

    fn get_short(&self) -> (r: String)
        requires
            self.out_wf(),
        ensures
            r@ == self.short_spec(),
    ;

    fn get_message(&self) -> (r: String)
        requires
            self.out_wf(),
        ensures
            r@ == self.message_spec(),
    ;

    fn get_location(&self) -> (r: String)
        requires
            self.out_wf(),
        ensures
            r@ == self.location_spec(),
    ;

    fn get_cutout(&self) -> (r: String)
        requires
            self.out_wf(),
        ensures
            r@ == self.cutout_spec(),
    ;

    fn get_type(&self) -> (r: String)
        requires
            self.out_wf(),
        ensures
            r@ == self.type_spec(),
    ;

    /// `<severity-marker>: '<short>' @ <location>`.
    fn get_header(&self) -> (r: String)
        requires
            self.out_wf(),
        ensures
            r@ == self.type_spec() + ": '"@ + self.short_spec() + "' @ "@
                + self.location_spec(),
    {
        let mut r = self.get_type();
        r.append(": '");
        let short = self.get_short();
        r.append(short.as_str());
        r.append("' @ ");
        let location = self.get_location();
        r.append(location.as_str());
        r
    }

    /// `<cutout>` and `<message>` on separate lines.
    fn get_body(&self) -> (r: String)
        requires
            self.out_wf(),
        ensures
            r@ == self.cutout_spec() + "\n"@ + self.message_spec(),
    {
        let mut r = self.get_cutout();
        r.append("\n");
        let message = self.get_message();
        r.append(message.as_str());
        r
    }
}

} // verus!
