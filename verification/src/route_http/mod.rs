pub mod method;
pub mod request;
pub mod response;
pub mod status;
