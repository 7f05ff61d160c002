//! A minimal HTTP lookup core: it turns a request path into a validated IP
//! address, asks a geolocation reader for a record, and shapes the reply
//! with the right status, headers and JSON body.

pub mod http;
pub mod ip;
