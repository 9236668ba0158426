pub mod compiler;
pub mod model;
pub mod output;
pub mod scanner;
pub mod strings;
