pub mod course_laws;
pub mod encoding;
pub mod fetch;
pub mod http;
pub mod intake;
pub mod json;
pub mod keys;
pub mod options;
pub mod proxy;
pub mod reply;
pub mod request;
pub mod script;
pub mod session;
pub mod session_laws;
pub mod settings;
pub mod text;
pub mod wallet;
pub mod weburl;
