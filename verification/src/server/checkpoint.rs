//! Checkpoints of the server's state and the names of checkpoint files.

use vstd::prelude::*;
use crate::ir::mutation::{decimal, decimal_string};
use crate::server::evolution::rank_by_fitness;

verus! {

/// Server state kept in a checkpoint.
#[derive(Debug, Clone, Copy, PartialEq, Eq, Structural)]
pub struct CheckpointData {
    pub num_jobs_created: u64,
    pub num_jobs_completed: u64,
}

/// A checkpoint: format version, creation time (seconds since the Unix
/// epoch) and data.
#[derive(Debug, Clone, Copy, PartialEq, Eq, Structural)]
pub struct Checkpoint {
    pub version: u32,
    pub timestamp: i64,
    pub data: CheckpointData,
}

impl Checkpoint {
    /// The checkpoint written at a time: version 1, counters at zero.
    pub fn fresh(timestamp: i64) -> (r: Checkpoint)
        ensures
            r == (Checkpoint {
                version: 1,
                timestamp,
                data: CheckpointData { num_jobs_created: 0, num_jobs_completed: 0 },
            }),
    {
        Checkpoint { version: 1, timestamp, data: CheckpointData { num_jobs_created: 0, num_jobs_completed: 0 } }
    }
}

/// An integer as `{}` formats it: a minus sign for negatives, then the
/// decimal digits of its magnitude.
pub open spec fn decimal_int(v: int) -> Seq<char> {
    if v < 0 { seq!['-'].add(decimal((-v) as nat)) } else { decimal(v as nat) }
}

/// The prefix of checkpoint file names.
pub open spec fn checkpoint_prefix() -> Seq<char> {
    seq!['c', 'h', 'e', 'c', 'k', 'p', 'o', 'i', 'n', 't', '_']
}

/// The suffix of checkpoint file names.
pub open spec fn checkpoint_suffix() -> Seq<char> {
    seq!['.', 'b', 'i', 'n']
}

/// An integer in decimal (see `decimal_int`).
pub fn decimal_i64(v: i64) -> (r: String)
    ensures
        r@ == decimal_int(v as int),
{
    if v < 0 {
        let m: u64 = if v == i64::MIN { 0x8000_0000_0000_0000u64 } else { (-v) as u64 };
        let digits = decimal_string(m);
        let r = String::from_str("-").concat(digits.as_str());
        proof {
            reveal_strlit("-");
            assert(r@ =~= seq!['-'].add(decimal((-(v as int)) as nat)));
        }
        r
    } else {
        decimal_string(v as u64)
    }
}

impl Checkpoint {
    /// The name of the checkpoint's file: the prefix, the time in decimal
    /// and the suffix.
    pub fn file_name(&self) -> (r: String)
        ensures
            r@ == checkpoint_prefix() + decimal_int(self.timestamp as int) + checkpoint_suffix(),
    {
        let digits = decimal_i64(self.timestamp);
        let r = String::from_str("checkpoint_").concat(digits.as_str()).concat(".bin");
        proof {
            reveal_strlit("checkpoint_");
            reveal_strlit(".bin");
            assert("checkpoint_"@ =~= checkpoint_prefix());
            assert(".bin"@ =~= checkpoint_suffix());
        }
        r
    }
}

/// The character is an ASCII digit.
pub open spec fn is_digit(c: char) -> bool {
    '0' <= c <= '9'
}

/// The value of a string of decimal digits.
pub open spec fn digits_value(s: Seq<char>) -> int
    decreases s.len(),
{
    if s.len() == 0 { 0 } else { digits_value(s.drop_last()) * 10 + (s.last() as int - '0' as int) }
}

/// The text starts with a sign.
pub open spec fn signed_text(s: Seq<char>) -> bool {
    s.len() > 0 && (s[0] == '-' || s[0] == '+')
}

/// The text starts with a minus sign.
pub open spec fn negative_sign(s: Seq<char>) -> bool {
    s.len() > 0 && s[0] == '-'
}

/// The text after its sign, if any.
pub open spec fn unsigned_part(s: Seq<char>) -> Seq<char> {
    if signed_text(s) { s.drop_first() } else { s }
}

/// What `str::parse::<i64>` accepts: an optional sign, then at least one
/// ASCII digit and nothing else, of a value within `i64`.
pub open spec fn parse_i64(s: Seq<char>) -> Option<int> {
    let d = unsigned_part(s);
    let v = if negative_sign(s) { -digits_value(d) } else { digits_value(d) };
    if d.len() == 0 || !(forall|i: int| 0 <= i < d.len() ==> is_digit(#[trigger] d[i])) {
        None
    } else if i64::MIN <= v <= i64::MAX {
        Some(v)
    } else {
        None
    }
}

/// The time a checkpoint file name gives: the name is the prefix, a
/// number as `str::parse::<i64>` reads it, and the suffix.
pub open spec fn checkpoint_timestamp(name: Seq<char>) -> Option<int> {
    let p = checkpoint_prefix().len() as int;
    let q = checkpoint_suffix().len() as int;
    if name.len() >= p + q && name.take(p) == checkpoint_prefix() && name.skip(name.len() - q) == checkpoint_suffix() {
        parse_i64(name.subrange(p, name.len() - q))
    } else {
        None
    }
}

/// Digits only add to the value of their prefix.
proof fn lemma_digits_value_grows(s: Seq<char>, k: int)
    requires
        0 <= k <= s.len(),
        forall|i: int| 0 <= i < s.len() ==> is_digit(#[trigger] s[i]),
    ensures
        digits_value(s) >= digits_value(s.take(k)) >= 0,
    decreases s.len(),
{
    if s.len() > 0 {
        if k == s.len() {
            assert(s.take(k) =~= s);
            lemma_digits_value_grows(s.drop_last(), s.len() - 1);
            assert(s.drop_last().take(s.len() - 1) =~= s.drop_last());
        } else {
            lemma_digits_value_grows(s.drop_last(), k);
            assert(s.drop_last().take(k) =~= s.take(k));
            lemma_digits_value_grows(s.drop_last(), s.len() - 1);
            assert(s.drop_last().take(s.len() - 1) =~= s.drop_last());
        }
    }
}

/// The time in a checkpoint file name, if it is one.
pub fn parse_checkpoint_name(name: &str) -> (r: Option<i64>)
    ensures
        match checkpoint_timestamp(name@) {
            Some(v) => r == Some(v as i64),
            None => r is None,
        },
{
    let n = name.unicode_len();
    let prefix = "checkpoint_";
    let suffix = ".bin";
    proof {
        reveal_strlit("checkpoint_");
        reveal_strlit(".bin");
        assert(prefix@ =~= checkpoint_prefix());
        assert(suffix@ =~= checkpoint_suffix());
    }
    if n < 15 {
        return None;
    }
    let mut i: usize = 0;
    while i < 11
        invariant
            i <= 11,
            n == name@.len(),
            n >= 15,
            prefix@ == checkpoint_prefix(),
            forall|j: int| 0 <= j < i ==> name@[j] == checkpoint_prefix()[j],
        decreases 11 - i,
    {
        if name.get_char(i) != prefix.get_char(i) {
            assert(name@.take(11)[i as int] != checkpoint_prefix()[i as int]);
            return None;
        }
        i += 1;
    }
    assert(name@.take(11) =~= checkpoint_prefix());
    let mut j: usize = 0;
    while j < 4
        invariant
            j <= 4,
            n == name@.len(),
            n >= 15,
            suffix@ == checkpoint_suffix(),
            forall|k: int| 0 <= k < j ==> name@[n - 4 + k] == checkpoint_suffix()[k],
        decreases 4 - j,
    {
        if name.get_char(n - 4 + j) != suffix.get_char(j) {
            assert(name@.skip(n - 4)[j as int] != checkpoint_suffix()[j as int]);
            return None;
        }
        j += 1;
    }
    assert(name@.skip(n - 4) =~= checkpoint_suffix());
    let ghost body = name@.subrange(11, n - 4);
    // The optional sign.
    let mut start: usize = 11;
    let mut negative = false;
    let first = name.get_char(11);
    if first == '-' || first == '+' {
        negative = first == '-';
        start = 12;
    }
    let ghost d = body.skip(start - 11);
    assert(d =~= name@.subrange(start as int, n - 4));
    proof {
        assert(body.len() == n - 15);
        assert(checkpoint_timestamp(name@) == parse_i64(body));
        assert(first == name@[11]);
        if body.len() > 0 {
            assert(body[0] == name@[11]);
        } else {
            assert(name@[n - 4 + 0] == checkpoint_suffix()[0]);
        }
        assert(signed_text(body) == (start == 12));
        assert(negative_sign(body) == negative);
        if signed_text(body) {
            assert(d =~= body.drop_first());
        } else {
            assert(d =~= body);
        }
        assert(d == unsigned_part(body));
    }
    if start >= n - 4 {
        return None;
    }
    // The digits, accumulated while they fit in a `u64`.
    let mut acc: u64 = 0;
    let mut k: usize = start;
    while k < n - 4
        invariant
            11 <= start <= k <= n - 4,
            n == name@.len(),
            d == name@.subrange(start as int, n - 4),
            d == unsigned_part(body),
            negative == negative_sign(body),
            checkpoint_timestamp(name@) == parse_i64(body),
            forall|x: int| start <= x < k ==> is_digit(#[trigger] name@[x]),
            acc == digits_value(name@.subrange(start as int, k as int)),
        decreases n - 4 - k,
    {
        let c = name.get_char(k);
        if !('0' <= c && c <= '9') {
            assert(d[k - start] == c);
            assert(!is_digit(d[k - start]));
            return None;
        }
        let dv = (c as u32 - '0' as u32) as u64;
        proof {
            assert(name@.subrange(start as int, k + 1).drop_last() =~= name@.subrange(start as int, k as int));
        }
        match acc.checked_mul(10) {
            Some(m) => match m.checked_add(dv) {
                Some(s) => { acc = s; },
                None => {
                    proof {
                        assert(d.take(k + 1 - start) =~= name@.subrange(start as int, k + 1));
                        lemma_too_big(body, k + 1 - start);
                    }
                    return None;
                },
            },
            None => {
                proof {
                        assert(d.take(k + 1 - start) =~= name@.subrange(start as int, k + 1));
                        lemma_too_big(body, k + 1 - start);
                    }
                return None;
            },
        }
        k += 1;
    }
    assert(name@.subrange(start as int, k as int) =~= d);
    if negative {
        if acc <= 9223372036854775807 {
            Some(-(acc as i64))
        } else if acc == 9223372036854775808 {
            Some(i64::MIN)
        } else {
            None
        }
    } else {
        if acc <= 9223372036854775807 {
            Some(acc as i64)
        } else {
            None
        }
    }
}

/// When a prefix of the digits already exceeds `u64`, the text is no
/// `i64`: either a later character is no digit, or the whole number is
/// larger still.
proof fn lemma_too_big(body: Seq<char>, m: int)
    requires
        0 < m <= unsigned_part(body).len(),
        forall|i: int| 0 <= i < m ==> is_digit(#[trigger] unsigned_part(body)[i]),
        digits_value(unsigned_part(body).take(m)) > u64::MAX,
    ensures
        parse_i64(body) is None,
{
    let d = unsigned_part(body);
    if forall|i: int| 0 <= i < d.len() ==> is_digit(#[trigger] d[i]) {
        lemma_digits_value_grows(d, m);
    }
}

/// The decimal digits of a number are digits, at least one, and read back
/// as the number.
proof fn lemma_decimal_reads_back(n: nat)
    ensures
        decimal(n).len() > 0,
        forall|i: int| 0 <= i < decimal(n).len() ==> is_digit(#[trigger] decimal(n)[i]),
        digits_value(decimal(n)) == n,
    decreases n,
{
    let d = (('0' as u8) + (n % 10) as u8) as char;
    assert(is_digit(d) && d as int - '0' as int == n % 10) by {
        assert(0 <= n % 10 < 10);
    }
    assert(decimal(n).last() == d);
    assert(digits_value(decimal(n)) == digits_value(decimal(n).drop_last()) * 10 + (d as int - '0' as int));
    if n < 10 {
        assert(decimal(n).drop_last() =~= Seq::<char>::empty());
        assert(digits_value(Seq::<char>::empty()) == 0);
    } else {
        lemma_decimal_reads_back(n / 10);
        assert(decimal(n).drop_last() =~= decimal(n / 10));
        assert(decimal(n).last() == d);
        assert(n == (n / 10) * 10 + n % 10);
        assert forall|i: int| 0 <= i < decimal(n).len() implies is_digit(#[trigger] decimal(n)[i]) by {
            if i < decimal(n).len() - 1 {
                assert(decimal(n)[i] == decimal(n / 10)[i]);
            }
        }
    }
}

/// A checkpoint's file name reads back as its time.
pub proof fn lemma_file_name_reads_back(timestamp: i64)
    ensures
        checkpoint_timestamp(checkpoint_prefix() + decimal_int(timestamp as int) + checkpoint_suffix())
            == Some(timestamp as int),
{
    let t = timestamp as int;
    let body = decimal_int(t);
    let name = checkpoint_prefix() + body + checkpoint_suffix();
    assert(name.take(11) =~= checkpoint_prefix());
    assert(name.skip(name.len() - 4) =~= checkpoint_suffix());
    assert(name.subrange(11, name.len() - 4) =~= body);
    if t < 0 {
        lemma_decimal_reads_back((-t) as nat);
        assert(unsigned_part(body) =~= decimal((-t) as nat));
    } else {
        lemma_decimal_reads_back(t as nat);
        assert(is_digit(body[0]));
        assert(unsigned_part(body) == body);
    }
}

/// The index of the latest time, the first one among equals; `None` when
/// there is none.
pub fn latest_checkpoint(timestamps: &Vec<i64>) -> (r: Option<usize>)
    ensures
        timestamps@.len() == 0 <==> r is None,
        r matches Some(i) ==> {
            &&& i < timestamps@.len()
            &&& forall|j: int| 0 <= j < timestamps@.len() ==> timestamps@[j] <= timestamps@[i as int]
            &&& forall|j: int| 0 <= j < i ==> timestamps@[j] < timestamps@[i as int]
        },
{
    let mut best: Option<usize> = None;
    let mut i: usize = 0;
    while i < timestamps.len()
        invariant
            i <= timestamps@.len(),
            i == 0 <==> best is None,
            best matches Some(b) ==> {
                &&& b < i
                &&& forall|j: int| 0 <= j < i ==> timestamps@[j] <= timestamps@[b as int]
                &&& forall|j: int| 0 <= j < b ==> timestamps@[j] < timestamps@[b as int]
            },
        decreases timestamps@.len() - i,
    {
        match best {
            None => { best = Some(i); },
            Some(b) => {
                if timestamps[i] > timestamps[b] {
                    best = Some(i);
                }
            },
        }
        i += 1;
    }
    best
}

/// The order-preserving key of a time.
fn time_key(t: i64) -> (r: u64)
    ensures
        r == time_key_spec(t),
{
    (t as u64) ^ 0x8000_0000_0000_0000u64
}

/// The order-preserving key of a time: its bits with the sign flipped.
pub open spec fn time_key_spec(t: i64) -> u64 {
    (t as u64) ^ 0x8000_0000_0000_0000u64
}

/// Keys order times as the times themselves.
proof fn lemma_time_key(a: i64, b: i64)
    ensures
        (a < b) == (time_key_spec(a) < time_key_spec(b)),
        (a == b) == (time_key_spec(a) == time_key_spec(b)),
{
    assert((a < b) == (((a as u64) ^ 0x8000_0000_0000_0000u64) < ((b as u64) ^ 0x8000_0000_0000_0000u64))) by (bit_vector);
    assert((a == b) == (((a as u64) ^ 0x8000_0000_0000_0000u64) == ((b as u64) ^ 0x8000_0000_0000_0000u64))) by (bit_vector);
}

/// The checkpoints to delete so that the `keep` latest remain: none when
/// there are at most `keep`, else all but the first `keep` of the times
/// sorted from the latest down (equal times in order).
pub fn checkpoints_to_remove(timestamps: &Vec<i64>, keep: usize) -> (r: Vec<usize>)
    ensures
        timestamps@.len() <= keep ==> r@.len() == 0,
        timestamps@.len() > keep ==> exists|order: Seq<usize>| {
            &&& order.len() == timestamps@.len()
            &&& forall|i: int| 0 <= i < order.len() ==> #[trigger] order[i] < timestamps@.len()
            &&& forall|i: int, j: int| 0 <= i < j < order.len() ==> {
                ||| timestamps@[order[i] as int] > timestamps@[order[j] as int]
                ||| (timestamps@[order[i] as int] == timestamps@[order[j] as int] && order[i] < order[j])
            }
            &&& r@ == order.skip(keep as int)
        },
{
    let n = timestamps.len();
    let mut r: Vec<usize> = Vec::new();
    if n <= keep {
        return r;
    }
    let mut keys: Vec<u64> = Vec::new();
    let mut i: usize = 0;
    while i < n
        invariant
            n == timestamps@.len(),
            i <= n,
            keys@.len() == i,
            forall|j: int| 0 <= j < i ==> #[trigger] keys@[j] == time_key_spec(timestamps@[j]),
        decreases n - i,
    {
        keys.push(time_key(timestamps[i]));
        i += 1;
    }
    let order = rank_by_fitness(&keys);
    let mut j: usize = keep;
    while j < n
        invariant
            keep <= j <= n,
            order@.len() == n,
            r@ == order@.subrange(keep as int, j as int),
        decreases n - j,
    {
        r.push(order[j]);
        j += 1;
        assert(r@ =~= order@.subrange(keep as int, j as int));
    }
    proof {
        assert(r@ =~= order@.skip(keep as int));
        assert forall|a: int, b: int| 0 <= a < b < order@.len() implies {
            ||| timestamps@[order@[a] as int] > timestamps@[order@[b] as int]
            ||| (timestamps@[order@[a] as int] == timestamps@[order@[b] as int] && order@[a] < order@[b])
        } by {
            lemma_time_key(timestamps@[order@[a] as int], timestamps@[order@[b] as int]);
            assert(keys@[order@[a] as int] == time_key_spec(timestamps@[order@[a] as int]));
            assert(keys@[order@[b] as int] == time_key_spec(timestamps@[order@[b] as int]));
        }
    }
    r
}

} // verus!
