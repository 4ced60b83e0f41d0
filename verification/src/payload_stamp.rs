//! Benchmark message bodies: a repeated per-client seed, optionally led by a
//! send-time stamp `velamq-ts-ns=<nanos>;` that the receiving side reads back
//! to measure end-to-end latency.

use vstd::prelude::*;
use vstd::arithmetic::div_mod::{
    lemma_fundamental_div_mod, lemma_fundamental_div_mod_converse, lemma_mod_bound,
};
use crate::decimal::{
    dec_text, i64_text, is_dec_digit, lemma_dec_text, lemma_parse_signed_dec_text, parse_i64_chars,
    parse_i64_spec, signed_dec_text, u64_text,
};
use crate::text::{append_chars, chars_of};

verus! {

/// The bytes of an ASCII text.
pub open spec fn ascii_bytes(s: Seq<char>) -> Seq<u8> {
    s.map_values(|c: char| c as u8)
}

/// Bytes read one character each (as `u8 as char` does).
pub open spec fn bytes_as_chars(b: Seq<u8>) -> Seq<char> {
    b.map_values(|x: u8| x as char)
}

/// The marker that opens a stamped payload.
pub open spec fn stamp_marker() -> Seq<char> {
    "velamq-ts-ns="@
}

/// `velamq-ts-ns=<nanos>;`
pub open spec fn stamp_text(ts: i64) -> Seq<char> {
    stamp_marker() + signed_dec_text(ts as int) + ";"@
}

/// `velamq-bench:<index>:`, the filler that each client repeats.
pub open spec fn seed_text(index: u64) -> Seq<char> {
    "velamq-bench:"@ + dec_text(index as nat) + ":"@
}

/// The payload of `size` bytes for client `index`: the stamp first (when
/// there is one), then the seed repeated; a stamp longer than `size` makes the
/// payload as long as the stamp.
pub open spec fn payload_spec(size: nat, index: u64, ts: Option<i64>) -> Seq<u8> {
    let prefix = match ts {
        Some(t) => ascii_bytes(stamp_text(t)),
        None => Seq::<u8>::empty(),
    };
    let seed = ascii_bytes(seed_text(index));
    let target: nat = match ts {
        Some(t) => if size >= prefix.len() {
            size
        } else {
            prefix.len()
        },
        None => size,
    };
    Seq::new(
        target,
        |i: int|
            if i < prefix.len() {
                prefix[i]
            } else {
                seed[(i - prefix.len()) % (seed.len() as int)]
            },
    )
}

/// The position of the first `b` in `s`.
pub open spec fn find_byte(s: Seq<u8>, b: u8) -> Option<nat>
    decreases s.len(),
{
    if s.len() == 0 {
        None
    } else if s[0] == b {
        Some(0)
    } else {
        match find_byte(s.drop_first(), b) {
            Some(k) => Some(k + 1),
            None => None,
        }
    }
}

/// What a receiver reads from a payload: the number between the marker and
/// the first `;`, parsed as `str::parse::<i64>` does; `None` when the payload
/// lacks the marker or the `;`, or the text is no `i64`. (Bytes outside ASCII
/// are never digits, so reading bytes as characters decides as decoding UTF-8
/// first would.)
pub open spec fn parse_stamp_spec(p: Seq<u8>) -> Option<i64> {
    let marker = ascii_bytes(stamp_marker());
    if !marker.is_prefix_of(p) {
        None
    } else {
        let rest = p.skip(marker.len() as int);
        match find_byte(rest, 59u8) {
            Some(end) => parse_i64_spec(bytes_as_chars(rest.take(end as int))),
            None => None,
        }
    }
}

proof fn lemma_mod_step(x: int, n: int)
    requires
        n > 0,
        x >= -1,
    ensures
        (x + 1) % n == if x == -1 {
            0
        } else if x % n + 1 == n {
            0
        } else {
            x % n + 1
        },
{
    if x == -1 {
        lemma_fundamental_div_mod_converse(0, n, 0, 0);
    } else {
        lemma_fundamental_div_mod(x, n);
        lemma_mod_bound(x, n);
        let q = x / n;
        let r = x % n;
        if r + 1 == n {
            assert(x + 1 == (q + 1) * n + 0) by (nonlinear_arith)
                requires
                    x == n * q + r,
                    r + 1 == n,
            ;
            lemma_fundamental_div_mod_converse(x + 1, n, q + 1, 0);
        } else {
            assert(x + 1 == q * n + (r + 1)) by (nonlinear_arith)
                requires
                    x == n * q + r,
            ;
            lemma_fundamental_div_mod_converse(x + 1, n, q, r + 1);
        }
    }
}

fn ascii_bytes_of(s: &[char]) -> (r: Vec<u8>)
    ensures
        r@ == ascii_bytes(s@),
{
    let mut r: Vec<u8> = Vec::new();
    let mut i: usize = 0;
    while i < s.len()
        invariant
            i <= s@.len(),
            r@ == ascii_bytes(s@.take(i as int)),
        decreases s@.len() - i,
    {
        r.push(s[i] as u8);
        i = i + 1;
        assert(r@ =~= ascii_bytes(s@.take(i as int)));
    }
    assert(s@.take(s@.len() as int) =~= s@);
    r
}

fn stamp_bytes(ts: i64) -> (r: Vec<u8>)
    ensures
        r@ == ascii_bytes(stamp_text(ts)),
{
    let mut text = chars_of("velamq-ts-ns=");
    let digits = i64_text(ts);
    append_chars(&mut text, digits.as_slice());
    let tail = chars_of(";");
    append_chars(&mut text, tail.as_slice());
    ascii_bytes_of(text.as_slice())
}

fn seed_bytes(index: u64) -> (r: Vec<u8>)
    ensures
        r@ == ascii_bytes(seed_text(index)),
        r@.len() > 0,
{
    let mut text = chars_of("velamq-bench:");
    let digits = u64_text(index);
    append_chars(&mut text, digits.as_slice());
    let tail = chars_of(":");
    append_chars(&mut text, tail.as_slice());
    proof {
        lemma_dec_text(index as nat);
    }
    ascii_bytes_of(text.as_slice())
}

/// The message body for client `index`: `size` bytes of the repeated seed,
/// led by the send-time stamp when `timestamp_ns` is given.
pub fn build_payload(size: usize, index: u64, timestamp_ns: Option<i64>) -> (r: Vec<u8>)
    ensures
        r@ == payload_spec(size as nat, index, timestamp_ns),
{
    if size == 0 && timestamp_ns.is_none() {
        assert(payload_spec(size as nat, index, timestamp_ns) =~= Seq::<u8>::empty());
        return Vec::new();
    }
    let prefix: Vec<u8> = match timestamp_ns {
        Some(t) => stamp_bytes(t),
        None => Vec::new(),
    };
    let seed = seed_bytes(index);
    let target: usize = match timestamp_ns {
        Some(_) => if size >= prefix.len() {
            size
        } else {
            prefix.len()
        },
        None => size,
    };
    let ghost spec = payload_spec(size as nat, index, timestamp_ns);
    assert(prefix@ == match timestamp_ns {
        Some(t) => ascii_bytes(stamp_text(t)),
        None => Seq::<u8>::empty(),
    });
    let mut r: Vec<u8> = Vec::new();
    let mut i: usize = 0;
    let mut k: usize = 0;
    proof {
        lemma_mod_step(-1, seed@.len() as int);
    }
    while i < target
        invariant
            i <= target,
            target == spec.len(),
            r@ == spec.take(i as int),
            seed@.len() > 0,
            seed@.len() == seed.len(),
            k < seed@.len(),
            i >= prefix@.len() ==> k == (i - prefix@.len()) % (seed@.len() as int),
            i < prefix@.len() ==> k == 0,
            prefix@ == match timestamp_ns {
                Some(t) => ascii_bytes(stamp_text(t)),
                None => Seq::<u8>::empty(),
            },
            seed@ == ascii_bytes(seed_text(index)),
            spec == payload_spec(size as nat, index, timestamp_ns),
        decreases target - i,
    {
        if i < prefix.len() {
            r.push(prefix[i]);
        } else {
            r.push(seed[k]);
            proof {
                lemma_mod_step((i - prefix@.len()) as int, seed@.len() as int);
            }
            k = if k + 1 == seed.len() {
                0
            } else {
                k + 1
            };
        }
        proof {
            if i + 1 == prefix@.len() {
                lemma_mod_step(-1, seed@.len() as int);
            }
        }
        i = i + 1;
        assert(r@ =~= spec.take(i as int));
    }
    assert(spec.take(target as int) =~= spec);
    r
}

/// Reads the send-time stamp back from a received payload.
pub fn parse_payload_timestamp(payload: &[u8]) -> (r: Option<i64>)
    ensures
        r == parse_stamp_spec(payload@),
{
    let marker_chars = chars_of("velamq-ts-ns=");
    let marker = ascii_bytes_of(marker_chars.as_slice());
    let m = marker.len();
    if payload.len() < m {
        return None;
    }
    let mut j: usize = 0;
    while j < m
        invariant
            m == marker@.len(),
            marker@ == ascii_bytes(stamp_marker()),
            m <= payload@.len(),
            j <= m,
            forall|q: int| 0 <= q < j ==> payload@[q] == marker@[q],
        decreases m - j,
    {
        if payload[j] != marker[j] {
            assert(payload@.subrange(0, m as int)[j as int] != marker@[j as int]);
            return None;
        }
        j = j + 1;
    }
    assert(payload@.subrange(0, m as int) =~= marker@);
    let ghost rest = payload@.skip(m as int);
    let mut end: usize = m;
    while end < payload.len() && payload[end] != 59u8
        invariant
            m <= end <= payload@.len(),
            rest == payload@.skip(m as int),
            find_byte(rest, 59u8) == match find_byte(payload@.skip(end as int), 59u8) {
                Some(k) => Some((k + (end - m)) as nat),
                None => None,
            },
        decreases payload@.len() - end,
    {
        assert(payload@.skip(end as int).drop_first() =~= payload@.skip(end + 1));
        end = end + 1;
    }
    if end == payload.len() {
        assert(payload@.skip(end as int).len() == 0);
        return None;
    }
    assert(payload@.skip(end as int)[0] == 59u8);
    let mut seg: Vec<char> = Vec::new();
    let mut q: usize = m;
    while q < end
        invariant
            m <= q <= end,
            end < payload@.len(),
            seg@ == bytes_as_chars(payload@.subrange(m as int, q as int)),
        decreases end - q,
    {
        seg.push(payload[q] as char);
        q = q + 1;
        assert(seg@ =~= bytes_as_chars(payload@.subrange(m as int, q as int)));
    }
    assert(rest.take((end - m) as int) =~= payload@.subrange(m as int, end as int));
    parse_i64_chars(seg.as_slice())
}

proof fn lemma_find_byte_after(pre: Seq<u8>, b: u8, post: Seq<u8>)
    requires
        !pre.contains(b),
    ensures
        find_byte(pre + seq![b] + post, b) == Some(pre.len()),
    decreases pre.len(),
{
    let s = pre + seq![b] + post;
    if pre.len() == 0 {
        assert(s[0] == b);
    } else {
        assert(s[0] == pre[0]);
        assert(!pre.drop_first().contains(b)) by {
            if pre.drop_first().contains(b) {
                let i = choose|i: int| 0 <= i < pre.drop_first().len() && pre.drop_first()[i] == b;
                assert(pre[i + 1] == b);
            }
        }
        lemma_find_byte_after(pre.drop_first(), b, post);
        assert(s.drop_first() =~= pre.drop_first() + seq![b] + post);
    }
}

/// Reading a stamped payload gives back the stamp it was built with, whatever
/// its size and client index.
pub proof fn lemma_stamp_round_trip(size: nat, index: u64, ts: i64)
    ensures
        parse_stamp_spec(payload_spec(size, index, Some(ts))) == Some(ts),
{
    reveal_strlit("velamq-ts-ns=");
    reveal_strlit(";");
    let p = payload_spec(size, index, Some(ts));
    let marker_text = stamp_marker();
    let digits = signed_dec_text(ts as int);
    let stamp = ascii_bytes(stamp_text(ts));
    let marker = ascii_bytes(marker_text);
    let dbytes = ascii_bytes(digits);
    assert(stamp =~= marker + dbytes + seq![59u8]);
    assert(p.take(stamp.len() as int) =~= stamp);
    assert(marker.is_prefix_of(p)) by {
        assert(p.subrange(0, marker.len() as int) =~= marker);
    }
    let rest = p.skip(marker.len() as int);
    lemma_dec_text(if ts < 0 {
        (-(ts as int)) as nat
    } else {
        ts as nat
    });
    assert(!dbytes.contains(59u8)) by {
        if dbytes.contains(59u8) {
            let i = choose|i: int| 0 <= i < dbytes.len() && dbytes[i] == 59u8;
            if ts < 0 {
                if i > 0 {
                    assert(digits[i] == dec_text((-(ts as int)) as nat)[i - 1]);
                }
            }
        }
    }
    assert(rest =~= dbytes + seq![59u8] + p.skip(stamp.len() as int));
    lemma_find_byte_after(dbytes, 59u8, p.skip(stamp.len() as int));
    assert(rest.take(dbytes.len() as int) =~= dbytes);
    assert(bytes_as_chars(dbytes) =~= digits) by {
        assert forall|i: int| 0 <= i < digits.len() implies (digits[i] as u8) as char
            == digits[i] by {
            if ts < 0 && i > 0 {
                assert(digits[i] == dec_text((-(ts as int)) as nat)[i - 1]);
                assert(is_dec_digit(dec_text((-(ts as int)) as nat)[i - 1]));
            } else if ts >= 0 {
                assert(is_dec_digit(dec_text(ts as nat)[i]));
            }
        }
    }
    lemma_parse_signed_dec_text(ts);
}

} // verus!
