use vstd::prelude::*;

verus! {

/// Number of leading `'0'` characters that the hex form of a block hash must have.
pub const TARGET_HEXS: usize = 4;

/// Length in bytes of the command tag that opens every wire message.
pub const CMD_LEN: usize = 12;

/// Protocol version announced in `version` messages.
pub const VERSION: i32 = 1;

/// Value of the single output of a coinbase transaction.
pub const SUBSIDY: i32 = 10;

/// Address of the seed node that every node knows from the start.
pub const KNOWN_NODE1: &'static str = "localhost: 3000";

/// The process-wide constants gathered in one record.
#[derive(Clone, Copy, Debug)]
pub struct Config {
    pub target_hexs: usize,
    pub cmd_len: usize,
    pub version: i32,
    pub subsidy: i32,
    pub known_node: &'static str,
}

impl Config {
    /// The configuration that every node runs with.
    pub fn standard() -> (c: Config)
        ensures
            c.target_hexs == TARGET_HEXS,
            c.cmd_len == CMD_LEN,
            c.version == VERSION,
            c.subsidy == SUBSIDY,
            c.known_node@ == KNOWN_NODE1@,
    {
        Config {
            target_hexs: TARGET_HEXS,
            cmd_len: CMD_LEN,
            version: VERSION,
            subsidy: SUBSIDY,
            known_node: KNOWN_NODE1,
        }
    }
}

} // verus!
