use vstd::prelude::*;

use crate::types::AccountId;

verus! {

/// A pre-runtime entry of a block's digest: the identifier of the consensus
/// engine that wrote it, and its payload.
#[derive(Clone, PartialEq, Eq, Debug)]
pub struct PreRuntime {
    pub engine: [u8; 4],
    pub data: Vec<u8>,
}

/// The account encoded little-endian in the first eight bytes of `b`.
pub open spec fn account_from_le(b: Seq<u8>) -> int {
    b[0] + b[1] * 0x100 + b[2] * 0x1_0000 + b[3] * 0x100_0000 + b[4] * 0x1_0000_0000 + b[5]
        * 0x100_0000_0000 + b[6] * 0x1_0000_0000_0000 + b[7] * 0x100_0000_0000_0000
}

/// The account an entry names, if it was written by `engine` and its payload
/// holds one.
pub open spec fn entry_author(e: PreRuntime, engine: Seq<u8>) -> Option<AccountId> {
    if e.engine@ == engine && e.data@.len() >= 8 {
        Some(account_from_le(e.data@) as AccountId)
    } else {
        None
    }
}

/// The first account that an entry of `logs` written by `engine` names.
pub open spec fn author_of(logs: Seq<PreRuntime>, engine: Seq<u8>) -> Option<AccountId>
    decreases logs.len(),
{
    if logs.len() == 0 {
        None
    } else if entry_author(logs[0], engine) is Some {
        entry_author(logs[0], engine)
    } else {
        author_of(logs.skip(1), engine)
    }
}

/// Reads an account from the first eight bytes of `data`, little-endian;
/// `None` where there are fewer.
pub fn decode_account(data: &Vec<u8>) -> (r: Option<AccountId>)
    ensures
        r == (if data@.len() >= 8 {
            Some(account_from_le(data@) as AccountId)
        } else {
            None
        }),
{
    if data.len() < 8 {
        return None;
    }
    let v: u64 = data[0] as u64 + data[1] as u64 * 0x100 + data[2] as u64 * 0x1_0000 + data[3] as u64
        * 0x100_0000 + data[4] as u64 * 0x1_0000_0000 + data[5] as u64 * 0x100_0000_0000
        + data[6] as u64 * 0x1_0000_0000_0000 + data[7] as u64 * 0x100_0000_0000_0000;
    Some(v)
}

/// Whether two engine identifiers are the same.
fn same_engine(a: &[u8; 4], b: &[u8; 4]) -> (r: bool)
    ensures
        r == (a@ == b@),
{
    let r = a[0] == b[0] && a[1] == b[1] && a[2] == b[2] && a[3] == b[3];
    proof {
        if r {
            assert(a@ =~= b@);
        }
    }
    r
}

/// The block author: the first account named by a pre-runtime entry of
/// `engine`. Entries of other engines, and entries too short to name an
/// account, are passed over.
pub fn find_author(logs: &Vec<PreRuntime>, engine: &[u8; 4]) -> (r: Option<AccountId>)
    ensures
        r == author_of(logs@, engine@),
{
    let mut i: usize = 0;
    proof {
        assert(logs@.skip(0) =~= logs@);
    }
    while i < logs.len()
        invariant
            i <= logs@.len(),
            author_of(logs@, engine@) == author_of(logs@.skip(i as int), engine@),
        decreases logs@.len() - i,
    {
        let e = &logs[i];
        proof {
            assert(logs@.skip(i as int)[0] == logs@[i as int]);
            assert(logs@.skip(i as int).skip(1) =~= logs@.skip(i + 1));
        }
        if same_engine(&e.engine, engine) {
            let found = decode_account(&e.data);
            if found.is_some() {
                return found;
            }
        }
        i = i + 1;
    }
    proof {
        assert(logs@.skip(i as int).len() == 0);
    }
    None
}

} // verus!
