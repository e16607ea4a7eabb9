use vstd::prelude::*;

verus! {

/// Runtime settings of one tunnel session.
pub struct Config {
    /// The identity token, as the 128-bit value of the UUID.
    pub uuid: u128,
    pub proxy_addr: String,
    pub proxy_port: u16,
    pub main_page_url: String,
    pub proxy_kv_url: String,
}

} // verus!
