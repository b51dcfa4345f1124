//! Oracles: each looks at what an execution did and reports bug indices.

use vstd::prelude::*;

pub mod access_control;
pub mod cross_chain;
pub mod integer_overflow;
pub mod laws;
pub mod price_oracle_manip;
pub mod reentrancy_crosschain;

verus! {

pub const ERC20_BUG_IDX: u64 = 0;

pub const FUNCTION_BUG_IDX: u64 = 1;

pub const V2_PAIR_BUG_IDX: u64 = 2;

pub const TYPED_BUG_BUG_IDX: u64 = 4;

pub const SELFDESTRUCT_BUG_IDX: u64 = 5;

pub const ECHIDNA_BUG_IDX: u64 = 6;

pub const STATE_COMP_BUG_IDX: u64 = 7;

pub const ARB_CALL_BUG_IDX: u64 = 8;

pub const REENTRANCY_BUG_IDX: u64 = 9;

pub const INVARIANT_BUG_IDX: u64 = 10;

pub const INTEGER_OVERFLOW_BUG_IDX: u64 = 11;

pub const CROSS_CHAIN_MINT_IDX: u64 = 12;

pub const CROSS_CHAIN_FAKE_MSG_IDX: u64 = 13;

pub const CROSS_CHAIN_REPLAY_IDX: u64 = 14;

pub const CROSS_CHAIN_DRAIN_IDX: u64 = 15;

pub const CROSS_CHAIN_DESYNC_IDX: u64 = 16;

pub const CROSS_CHAIN_QUEUE_IDX: u64 = 17;

pub const CROSS_CHAIN_ATOMICITY_IDX: u64 = 18;

pub const ACCESS_CONTROL_BUG_IDX: u64 = 19;

pub const PRICE_ORACLE_BUG_IDX: u64 = 20;

pub const CROSS_CHAIN_REENTRANCY_BUG_IDX: u64 = 21;

/// The report that holds `idx` where `found`, and nothing otherwise.
pub open spec fn report(found: bool, idx: u64) -> Seq<u64> {
    if found {
        seq![idx]
    } else {
        Seq::empty()
    }
}

/// Appends `idx` to the bugs where `found`.
pub fn push_report(bugs: &mut Vec<u64>, found: bool, idx: u64)
    ensures
        final(bugs)@ == old(bugs)@ + report(found, idx),
{
    if found {
        bugs.push(idx);
    }
    assert(bugs@ =~= old(bugs)@ + report(found, idx));
}

/// The name of the bug with index `idx`.
pub open spec fn name_of_bug(idx: u64) -> Seq<char> {
    if idx == ERC20_BUG_IDX {
        "ERC20_BUG"@
    } else if idx == FUNCTION_BUG_IDX {
        "FUNCTION_BUG"@
    } else if idx == V2_PAIR_BUG_IDX {
        "V2_PAIR_BUG"@
    } else if idx == TYPED_BUG_BUG_IDX {
        "TYPED_BUG"@
    } else if idx == SELFDESTRUCT_BUG_IDX {
        "SELFDESTRUCT"@
    } else if idx == ECHIDNA_BUG_IDX {
        "ECHIDNA"@
    } else if idx == STATE_COMP_BUG_IDX {
        "STATE_COMP"@
    } else if idx == ARB_CALL_BUG_IDX {
        "ARB_CALL"@
    } else if idx == REENTRANCY_BUG_IDX {
        "REENTRANCY"@
    } else if idx == INVARIANT_BUG_IDX {
        "INVARIANT"@
    } else if idx == INTEGER_OVERFLOW_BUG_IDX {
        "INTEGER_OVERFLOW"@
    } else if idx == CROSS_CHAIN_MINT_IDX {
        "CROSS_CHAIN_MINT"@
    } else if idx == CROSS_CHAIN_FAKE_MSG_IDX {
        "CROSS_CHAIN_FAKE_MSG"@
    } else if idx == CROSS_CHAIN_REPLAY_IDX {
        "CROSS_CHAIN_REPLAY"@
    } else if idx == CROSS_CHAIN_DRAIN_IDX {
        "CROSS_CHAIN_DRAIN"@
    } else if idx == CROSS_CHAIN_DESYNC_IDX {
        "CROSS_CHAIN_DESYNC"@
    } else if idx == CROSS_CHAIN_QUEUE_IDX {
        "CROSS_CHAIN_QUEUE"@
    } else if idx == CROSS_CHAIN_ATOMICITY_IDX {
        "CROSS_CHAIN_ATOMICITY"@
    } else if idx == ACCESS_CONTROL_BUG_IDX {
        "ACCESS_CONTROL"@
    } else if idx == PRICE_ORACLE_BUG_IDX {
        "PRICE_ORACLE_MANIP"@
    } else if idx == CROSS_CHAIN_REENTRANCY_BUG_IDX {
        "CROSS_CHAIN_REENTRANCY"@
    } else {
        "UNKNOWN"@
    }
}

/// The name of the bug with index `idx`.
pub fn bug_name(idx: u64) -> (r: &'static str)
    ensures
        r@ == name_of_bug(idx),
{
    match idx {
        0 => "ERC20_BUG",
        1 => "FUNCTION_BUG",
        2 => "V2_PAIR_BUG",
        4 => "TYPED_BUG",
        5 => "SELFDESTRUCT",
        6 => "ECHIDNA",
        7 => "STATE_COMP",
        8 => "ARB_CALL",
        9 => "REENTRANCY",
        10 => "INVARIANT",
        11 => "INTEGER_OVERFLOW",
        12 => "CROSS_CHAIN_MINT",
        13 => "CROSS_CHAIN_FAKE_MSG",
        14 => "CROSS_CHAIN_REPLAY",
        15 => "CROSS_CHAIN_DRAIN",
        16 => "CROSS_CHAIN_DESYNC",
        17 => "CROSS_CHAIN_QUEUE",
        18 => "CROSS_CHAIN_ATOMICITY",
        19 => "ACCESS_CONTROL",
        20 => "PRICE_ORACLE_MANIP",
        21 => "CROSS_CHAIN_REENTRANCY",
        _ => "UNKNOWN",
    }
}

} // verus!
