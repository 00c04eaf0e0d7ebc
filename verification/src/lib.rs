pub mod text;
pub mod value;
pub mod scope;
pub mod flags;
pub mod chmod;
pub mod expand;
pub mod lexer;
pub mod ast;
pub mod registry;
pub mod parser;
pub mod ops;
pub mod interp;
pub mod util;
pub mod help;
pub mod pager;
pub mod grep;
pub mod sort;
pub mod strings;
pub mod cat;
pub mod cut;
pub mod wc;
pub mod ps;
pub mod completions;
pub mod alias;
pub mod cd;
pub mod edit_graph;
pub mod diff;
pub mod ps_list;
pub mod vars;
pub mod ls;
pub mod links;
pub mod mv;
