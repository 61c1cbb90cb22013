pub mod text;
pub mod order;
pub mod differ;
pub mod applier;
pub mod js_scope;
pub mod header;
pub mod locator;
pub mod syntax_check;
pub mod html_structure;
pub mod validator;
pub mod module_deps;
pub mod stats;
pub mod timeout;
pub mod output;
pub mod diagnostic;
pub mod history;
pub mod live;
pub mod reader;
pub mod search;
pub mod scanner;
pub mod report;
pub mod cdp;
