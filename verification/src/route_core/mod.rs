pub mod extract;
pub mod redirect;
pub mod respond;
