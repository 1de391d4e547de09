//! Option negotiation (RFC 2347): the server honours a `blksize` option
//! (RFC 2348) whose value is a decimal in range, and ignores the others.
use vstd::prelude::*;
use crate::packet::{options_model, TransferOption};

verus! {

pub const MIN_BLOCK_SIZE: u64 = 8;
pub const MAX_BLOCK_SIZE: u64 = 65464;

/// `blksize`, in lower case.
pub open spec fn blksize_name() -> Seq<u8> {
    seq![98u8, 108, 107, 115, 105, 122, 101]
}

pub open spec fn ascii_lower(c: u8) -> u8 {
    if 65 <= c <= 90 { (c + 32) as u8 } else { c }
}

/// Option names compare without regard to case.
pub open spec fn names_blksize(s: Seq<u8>) -> bool {
    s.len() == 7 && forall|i: int| 0 <= i < 7 ==> ascii_lower(#[trigger] s[i]) == blksize_name()[i]
}

pub open spec fn is_digits(s: Seq<u8>) -> bool {
    s.len() > 0 && forall|i: int| 0 <= i < s.len() ==> 48 <= #[trigger] s[i] <= 57
}

pub open spec fn decimal(s: Seq<u8>) -> int
    decreases s.len(),
{
    if s.len() == 0 {
        0
    } else {
        decimal(s.drop_last()) * 10 + (s.last() - 48)
    }
}

/// The block size a value asks for, where it is a decimal in range.
pub open spec fn block_size_value(v: Seq<u8>) -> Option<int> {
    if is_digits(v) && MIN_BLOCK_SIZE <= decimal(v) <= MAX_BLOCK_SIZE {
        Some(decimal(v))
    } else {
        None
    }
}

/// The first `blksize` option from index `i` on, with the block size it
/// asks for, where that is valid: `(size, index)`.
pub open spec fn blksize_from(o: Seq<(Seq<u8>, Seq<u8>)>, i: int) -> Option<(int, int)>
    decreases o.len() - i,
{
    if i < 0 || i >= o.len() {
        None
    } else if names_blksize(o[i].0) {
        match block_size_value(o[i].1) {
            Some(n) => Some((n, i)),
            None => None,
        }
    } else {
        blksize_from(o, i + 1)
    }
}

proof fn lemma_decimal_prefix(s: Seq<u8>, j: int)
    requires
        0 <= j <= s.len(),
        forall|i: int| 0 <= i < s.len() ==> 48 <= #[trigger] s[i] <= 57,
    ensures
        decimal(s) >= decimal(s.take(j)) >= 0,
    decreases s.len(),
{
    if j == s.len() {
        assert(s.take(j) =~= s);
        if s.len() > 0 {
            lemma_decimal_prefix(s.drop_last(), 0);
        }
    } else {
        lemma_decimal_prefix(s.drop_last(), j);
        assert(s.drop_last().take(j) =~= s.take(j));
    }
}

fn parse_block_size(v: &Vec<u8>) -> (r: Option<usize>)
    ensures
        r matches Some(n) ==> block_size_value(v@) == Some(n as int),
        r is None ==> block_size_value(v@) is None,
{
    if v.len() == 0 {
        return None;
    }
    let mut acc: u64 = 0;
    let mut i: usize = 0;
    assert(v@.take(0) =~= Seq::<u8>::empty());
    while i < v.len()
        invariant
            i <= v@.len(),
            acc == decimal(v@.take(i as int)),
            acc <= MAX_BLOCK_SIZE,
            forall|j: int| 0 <= j < i ==> 48 <= #[trigger] v@[j] <= 57,
        decreases v@.len() - i,
    {
        let c = v[i];
        if c < 48 || c > 57 {
            return None;
        }
        assert(v@.take(i + 1).drop_last() =~= v@.take(i as int));
        acc = acc * 10 + (c - 48) as u64;
        i = i + 1;
        if acc > MAX_BLOCK_SIZE {
            proof {
                if is_digits(v@) {
                    lemma_decimal_prefix(v@, i as int);
                }
            }
            return None;
        }
    }
    assert(v@.take(v@.len() as int) =~= v@);
    if acc < MIN_BLOCK_SIZE {
        return None;
    }
    Some(acc as usize)
}

/// Finds the `blksize` option of a request and the block size it asks for,
/// as `(size, index)`; `None` where there is none or its value is not a
/// decimal between 8 and 65464.
pub fn negotiate_block_size(options: &Vec<TransferOption>) -> (r: Option<(usize, usize)>)
    ensures
        r matches Some((n, i)) ==> blksize_from(options_model(options@), 0) == Some(
            (n as int, i as int),
        ),
        r is None ==> blksize_from(options_model(options@), 0) is None,
        r matches Some((n, i)) ==> MIN_BLOCK_SIZE <= n <= MAX_BLOCK_SIZE && i < options@.len(),
{
    let ghost o = options_model(options@);
    let mut i: usize = 0;
    while i < options.len()
        invariant
            i <= options@.len(),
            o == options_model(options@),
            blksize_from(o, 0) == blksize_from(o, i as int),
        decreases options@.len() - i,
    {
        let name = &options[i].name;
        let mut is_blksize = name.len() == 7;
        let mut k: usize = 0;
        while is_blksize && k < 7
            invariant
                k <= 7,
                is_blksize ==> name@.len() == 7,
                is_blksize == (name@.len() == 7 && forall|j: int|
                    0 <= j < k ==> ascii_lower(#[trigger] name@[j]) == blksize_name()[j]),
            decreases 7 - k,
        {
            let c = name[k];
            let lower = if 65 <= c && c <= 90 { c + 32 } else { c };
            let want: u8 = if k == 0 { 98 } else if k == 1 { 108 } else if k == 2 { 107 } else if k == 3 { 115 } else if k == 4 { 105 } else if k == 5 { 122 } else { 101 };
            if lower != want {
                is_blksize = false;
            }
            k = k + 1;
        }
        assert(o[i as int] == (options@[i as int].name@, options@[i as int].value@));
        if is_blksize {
            match parse_block_size(&options[i].value) {
                Some(n) => {
                    return Some((n, i));
                },
                None => {
                    return None;
                },
            }
        }
        i = i + 1;
    }
    None
}

} // verus!
