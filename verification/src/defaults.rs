//! Default values for optional configuration fields.

use vstd::prelude::*;

use crate::config::{LoadBalancing, Log};

verus! {

pub fn get_default_protocol() -> (r: String)
    ensures
        r@ == "http3"@,
{
    "http3".to_owned()
}

pub fn get_default_port() -> (r: u32)
    ensures
        r == 9889,
{
    9889
}

pub fn get_default_address() -> (r: String)
    ensures
        r@ == "0.0.0.0"@,
{
    "0.0.0.0".to_owned()
}

pub fn get_default_weight() -> (r: u32)
    ensures
        r == 100,
{
    100
}

pub fn get_default_path() -> (r: String)
    ensures
        r@ == "/health"@,
{
    "/health".to_owned()
}

pub fn get_default_interval() -> (r: u64)
    ensures
        r == 5000,
{
    5000
}

pub fn get_default_log_level() -> (r: String)
    ensures
        r@ == "info"@,
{
    "info".to_owned()
}

pub fn get_default_load_balancing() -> (r: LoadBalancing)
    ensures
        r.lb_type@ == "round-robin"@,
        r.key is None,
{
    LoadBalancing { lb_type: "round-robin".to_owned(), key: None }
}

pub fn get_default_log() -> (r: Log)
    ensures
        r.level@ == "info"@,
{
    Log { level: "info".to_owned() }
}

} // verus!