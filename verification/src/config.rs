//! Command-line configuration as the server core sees it: a listening
//! port, and optionally the master to follow.

use vstd::prelude::*;
use vstd::utf8::encode_utf8;

use crate::command::{parse_u64, spec_parse_u64};

verus! {

/// A listening port and, for a replica, the master's host and port.
#[derive(Debug, Clone)]
pub struct Config {
    pub port: u32,
    pub replicaof: Option<Vec<String>>,
}

impl Config {
    /// A usable `replicaof` names exactly a host and a decimal port.
    pub open spec fn wf(&self) -> bool {
        match self.replicaof {
            Some(args) => {
                &&& args@.len() == 2
                &&& spec_parse_u64(encode_utf8(args@[1]@)) matches Some(p) && p
                    <= usize::MAX as u64
            },
            None => true,
        }
    }

    /// The master this node follows, if it is a replica.
    pub fn get_replica_of(&self) -> (r: Option<(String, usize)>)
        requires
            self.wf(),
        ensures
            match r {
                Some(hp) => {
                    &&& self.replicaof matches Some(args)
                    &&& hp.0@ == args@[0]@
                    &&& spec_parse_u64(encode_utf8(args@[1]@)) == Some(hp.1 as u64)
                },
                None => self.replicaof is None,
            },
    {
        match &self.replicaof {
            Some(args) => {
                let host = args[0].clone();
                let port_bytes = args[1].as_str().as_bytes();
                let port = match parse_u64(port_bytes) {
                    Some(p) => p,
                    None => {
                        proof {
                            assert(false);
                        }
                        0
                    },
                };
                Some((host, port as usize))
            },
            None => None,
        }
    }
}

} // verus!
