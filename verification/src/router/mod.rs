//! Access to the home router.

use vstd::prelude::*;

pub mod crypto;
pub mod devices;
pub mod filter;
pub mod json;
pub mod page;
pub mod xml;
pub mod zte_f670l;

verus! {

/// What a router can do, and what it last said.
#[derive(Debug, Clone)]
pub struct RouterCaps {
    pub per_host_traffic: bool,
    pub can_block: bool,
    pub message: String,
}

/// The model of a [`RouterCaps`].
pub struct RouterCapsView {
    pub per_host_traffic: bool,
    pub can_block: bool,
    pub message: Seq<char>,
}

impl View for RouterCaps {
    type V = RouterCapsView;

    open spec fn view(&self) -> RouterCapsView {
        RouterCapsView {
            per_host_traffic: self.per_host_traffic,
            can_block: self.can_block,
            message: self.message@,
        }
    }
}

impl Default for RouterCaps {
    fn default() -> (r: RouterCaps)
        ensures
            r@ == (RouterCapsView { per_host_traffic: false, can_block: false, message: seq![] }),
    {
        RouterCaps { per_host_traffic: false, can_block: false, message: String::new() }
    }
}

} // verus!
