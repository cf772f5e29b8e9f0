//! The server's resolved configuration.
use vstd::prelude::*;

verus! {

pub struct ApplicationConfig {
    pub host: Option<String>,
    pub port: Option<u16>,
    pub amount_of_threads: Option<usize>,
    pub serving_directory: Option<String>,
}

impl ApplicationConfig {
    /// Listen on every interface at port 7777 and serve `./files`.
    pub fn get_defaults() -> (r: ApplicationConfig)
        ensures
            r.host matches Some(h) && h@ == "0.0.0.0"@,
            r.port == Some(7777u16),
            r.amount_of_threads == Some(4usize),
            r.serving_directory matches Some(d) && d@ == "./files"@,
    {
        ApplicationConfig {
            host: Some("0.0.0.0".to_owned()),
            port: Some(7777),
            amount_of_threads: Some(4),
            serving_directory: Some("./files".to_owned()),
        }
    }

    /// Each setting of `other` that is present wins over this one's.
    pub fn merge(&self, other: ApplicationConfig) -> (r: ApplicationConfig)
        ensures
            r.host == (match other.host {
                Some(h) => Some(h),
                None => self.host,
            }),
            r.port == (match other.port {
                Some(p) => Some(p),
                None => self.port,
            }),
            r.amount_of_threads == (match other.amount_of_threads {
                Some(n) => Some(n),
                None => self.amount_of_threads,
            }),
            r.serving_directory == (match other.serving_directory {
                Some(d) => Some(d),
                None => self.serving_directory,
            }),
    {
        let host = match other.host {
            Some(h) => Some(h),
            None => match &self.host {
                Some(h) => Some(h.clone()),
                None => None,
            },
        };
        let serving_directory = match other.serving_directory {
            Some(d) => Some(d),
            None => match &self.serving_directory {
                Some(d) => Some(d.clone()),
                None => None,
            },
        };
        ApplicationConfig {
            host,
            port: match other.port {
                Some(p) => Some(p),
                None => self.port,
            },
            amount_of_threads: match other.amount_of_threads {
                Some(n) => Some(n),
                None => self.amount_of_threads,
            },
            serving_directory,
        }
    }
}

} // verus!
