//! The ledger's on-disk encoding: one record per line, fields separated by
//! single spaces, and the proofs that every encoded record parses back
//! intact — also after being appended to existing well-formed content.

use vstd::prelude::*;
use vstd::arithmetic::div_mod::lemma_fundamental_div_mod;
use crate::errors::LedgerError;
use crate::ident::PackageIdentity;
use crate::ident::identity_byte_ok;
use crate::ident::valid_identity;
use crate::records::PackageRecord;
use crate::records::PackageStatus;
use crate::records::RecordV;
use crate::records::StatusV;
use crate::records::valid_reason;
use crate::records::views_of;

verus! {

/// ASCII decimal digit.
pub open spec fn is_digit(b: u8) -> bool {
    48 <= b <= 57
}

/// Numeric value of a big-endian decimal digit string.
pub open spec fn digits_val(s: Seq<u8>) -> nat
    decreases s.len(),
{
    if s.len() == 0 {
        0
    } else {
        digits_val(s.drop_last()) * 10 + (s.last() - 48) as nat
    }
}

/// Canonical decimal representation of a number.
pub open spec fn dec_rep(n: nat) -> Seq<u8>
    decreases n,
{
    if n < 10 {
        seq![(48 + n) as u8]
    } else {
        dec_rep(n / 10).push((48 + n % 10) as u8)
    }
}

pub proof fn lemma_dec_rep_digits(n: nat)
    ensures
        dec_rep(n).len() >= 1,
        forall|i: int| 0 <= i < dec_rep(n).len() ==> is_digit(#[trigger] dec_rep(n)[i]),
    decreases n,
{
    if n >= 10 {
        lemma_dec_rep_digits(n / 10);
    }
}

pub proof fn lemma_dec_rep_val(n: nat)
    ensures
        digits_val(dec_rep(n)) == n,
    decreases n,
{
    if n < 10 {
        assert(dec_rep(n).drop_last() =~= Seq::<u8>::empty());
        assert((48 + n) as u8 == 48 + n);
        assert(dec_rep(n).last() == (48 + n) as u8);
        assert(digits_val(dec_rep(n).drop_last()) == 0);
        assert(digits_val(dec_rep(n)) == digits_val(dec_rep(n).drop_last()) * 10 + (dec_rep(
            n,
        ).last() - 48) as nat);
    } else {
        lemma_dec_rep_val(n / 10);
        assert(dec_rep(n).drop_last() =~= dec_rep(n / 10));
        assert(n % 10 < 10);
        assert((48 + n % 10) as u8 == 48 + n % 10);
        assert(dec_rep(n).last() == (48 + n % 10) as u8);
        lemma_fundamental_div_mod(n as int, 10);
    }
}

/// The value of a digit string never falls when it is extended to the right.
pub proof fn lemma_digits_val_prefix(s: Seq<u8>, i: int)
    requires
        0 <= i <= s.len(),
    ensures
        digits_val(s.subrange(0, i)) <= digits_val(s),
    decreases s.len() - i,
{
    if i == s.len() {
        assert(s.subrange(0, i) =~= s);
    } else {
        assert(s.subrange(0, i + 1).drop_last() =~= s.subrange(0, i));
        assert(digits_val(s.subrange(0, i)) <= digits_val(s.subrange(0, i + 1)));
        lemma_digits_val_prefix(s, i + 1);
    }
}

/// Index of the first occurrence of a byte.
pub open spec fn find_byte(s: Seq<u8>, b: u8) -> Option<int>
    decreases s.len(),
{
    if s.len() == 0 {
        None
    } else if s[0] == b {
        Some(0)
    } else {
        match find_byte(s.drop_first(), b) {
            Some(i) => Some(i + 1),
            None => None,
        }
    }
}

/// `find_byte` returns the first occurrence, if any.
pub proof fn lemma_find_byte(s: Seq<u8>, b: u8)
    ensures
        match find_byte(s, b) {
            Some(i) => 0 <= i < s.len() && s[i] == b && (forall|j: int| 0 <= j < i ==> s[j] != b),
            None => forall|j: int| 0 <= j < s.len() ==> s[j] != b,
        },
    decreases s.len(),
{
    if s.len() > 0 && s[0] != b {
        lemma_find_byte(s.drop_first(), b);
        assert(forall|j: int| 1 <= j < s.len() ==> s[j] == s.drop_first()[j - 1]);
    }
}

/// A first occurrence determines the value of `find_byte`.
pub proof fn lemma_find_byte_from_props(s: Seq<u8>, b: u8, i: int)
    requires
        0 <= i < s.len(),
        s[i] == b,
        forall|j: int| 0 <= j < i ==> s[j] != b,
    ensures
        find_byte(s, b) == Some(i),
    decreases s.len(),
{
    if i > 0 {
        lemma_find_byte_from_props(s.drop_first(), b, i - 1);
    }
}

pub proof fn lemma_find_byte_none(s: Seq<u8>, b: u8)
    requires
        forall|j: int| 0 <= j < s.len() ==> s[j] != b,
    ensures
        find_byte(s, b) is None,
    decreases s.len(),
{
    if s.len() > 0 {
        lemma_find_byte_none(s.drop_first(), b);
    }
}

/// One ledger line for a record: kind byte (`I` installed, `F` failed),
/// timestamp, identity, and for a failure its reason, space-separated;
/// no trailing line break.
pub open spec fn enc_line(r: RecordV) -> Seq<u8> {
    match r.status {
        StatusV::Installed => seq![73u8, 32u8] + dec_rep(r.timestamp as nat) + seq![32u8]
            + r.identity,
        StatusV::Failed(reason) => seq![70u8, 32u8] + dec_rep(r.timestamp as nat) + seq![32u8]
            + r.identity + seq![32u8] + reason,
    }
}

/// One record as appended to the ledger file: its line and a line break.
pub open spec fn enc_record(r: RecordV) -> Seq<u8> {
    enc_line(r) + seq![10u8]
}

/// A whole ledger: the records' lines in order.
pub open spec fn enc_records(rs: Seq<RecordV>) -> Seq<u8>
    decreases rs.len(),
{
    if rs.len() == 0 {
        Seq::<u8>::empty()
    } else {
        enc_record(rs[0]) + enc_records(rs.drop_first())
    }
}

/// A timestamp field: a non-empty digit string whose value fits.
pub open spec fn parse_timestamp(s: Seq<u8>) -> Option<u64> {
    if s.len() > 0 && (forall|i: int| 0 <= i < s.len() ==> is_digit(#[trigger] s[i]))
        && digits_val(s) <= u64::MAX {
        Some(digits_val(s) as u64)
    } else {
        None
    }
}

/// One ledger line, without its line break.
pub open spec fn parse_line(l: Seq<u8>) -> Option<RecordV> {
    if l.len() < 2 || l[1] != 32u8 || (l[0] != 73u8 && l[0] != 70u8) {
        None
    } else {
        let rest = l.subrange(2, l.len() as int);
        match find_byte(rest, 32u8) {
            None => None,
            Some(i) => match parse_timestamp(rest.subrange(0, i)) {
                None => None,
                Some(ts) => {
                    let after = rest.subrange(i + 1, rest.len() as int);
                    if l[0] == 73u8 {
                        if valid_identity(after) {
                            Some(RecordV { identity: after, status: StatusV::Installed, timestamp: ts })
                        } else {
                            None
                        }
                    } else {
                        match find_byte(after, 32u8) {
                            None => None,
                            Some(j) => {
                                let id = after.subrange(0, j);
                                let reason = after.subrange(j + 1, after.len() as int);
                                if valid_identity(id) && valid_reason(reason) {
                                    Some(RecordV { identity: id, status: StatusV::Failed(reason), timestamp: ts })
                                } else {
                                    None
                                }
                            },
                        }
                    }
                },
            },
        }
    }
}

/// Full ledger content: line-break-delimited record lines. `None` means
/// the content is corrupt.
pub open spec fn parse_content(c: Seq<u8>) -> Option<Seq<RecordV>>
    decreases c.len(),
    via parse_content_decreases
{
    if c.len() == 0 {
        Some(Seq::<RecordV>::empty())
    } else {
        match find_byte(c, 10u8) {
            None => None,
            Some(i) => match parse_line(c.subrange(0, i)) {
                None => None,
                Some(r) => match parse_content(c.subrange(i + 1, c.len() as int)) {
                    None => None,
                    Some(rest) => Some(seq![r] + rest),
                },
            },
        }
    }
}

#[via_fn]
proof fn parse_content_decreases(c: Seq<u8>) {
    if c.len() > 0 {
        lemma_find_byte(c, 10u8);
    }
}

/// A well-formed record's line holds no line break.
pub proof fn lemma_enc_line_no_nl(r: RecordV)
    requires
        r.wf(),
    ensures
        forall|i: int| 0 <= i < enc_line(r).len() ==> enc_line(r)[i] != 10u8,
{
    lemma_dec_rep_digits(r.timestamp as nat);
    assert forall|i: int| 0 <= i < enc_line(r).len() implies enc_line(r)[i] != 10u8 by {
        let dec = dec_rep(r.timestamp as nat);
        match r.status {
            StatusV::Installed => {
                assert(enc_line(r) == seq![73u8, 32u8] + dec + seq![32u8] + r.identity);
                if i >= 3 + dec.len() {
                    assert(enc_line(r)[i] == r.identity[i - 3 - dec.len()]);
                    assert(identity_byte_ok(r.identity[i - 3 - dec.len()]));
                }
            },
            StatusV::Failed(reason) => {
                assert(enc_line(r) == seq![70u8, 32u8] + dec + seq![32u8] + r.identity
                    + seq![32u8] + reason);
                if 3 + dec.len() <= i < 3 + dec.len() + r.identity.len() {
                    assert(enc_line(r)[i] == r.identity[i - 3 - dec.len()]);
                    assert(identity_byte_ok(r.identity[i - 3 - dec.len()]));
                }
                if i >= 4 + dec.len() + r.identity.len() {
                    assert(enc_line(r)[i] == reason[i - 4 - dec.len() - r.identity.len()]);
                }
            },
        }
    }
}

/// Round trip for one line: a well-formed record's line parses back to it.
pub proof fn lemma_parse_enc_line(r: RecordV)
    requires
        r.wf(),
    ensures
        parse_line(enc_line(r)) == Some(r),
{
    let l = enc_line(r);
    let ts = r.timestamp as nat;
    let dec = dec_rep(ts);
    lemma_dec_rep_digits(ts);
    lemma_dec_rep_val(ts);
    let rest = l.subrange(2, l.len() as int);
    match r.status {
        StatusV::Installed => {
            assert(l == seq![73u8, 32u8] + dec + seq![32u8] + r.identity);
            assert(l[0] == 73u8 && l[1] == 32u8);
            assert(rest =~= dec + seq![32u8] + r.identity);
            assert(rest[dec.len() as int] == 32u8);
            assert(forall|j: int| 0 <= j < dec.len() ==> rest[j] == dec[j] && rest[j] != 32u8);
            lemma_find_byte_from_props(rest, 32u8, dec.len() as int);
            assert(rest.subrange(0, dec.len() as int) =~= dec);
            assert(parse_timestamp(dec) == Some(r.timestamp));
            let after = rest.subrange(dec.len() as int + 1, rest.len() as int);
            assert(after =~= r.identity);
        },
        StatusV::Failed(reason) => {
            assert(l == seq![70u8, 32u8] + dec + seq![32u8] + r.identity + seq![32u8] + reason);
            assert(l[0] == 70u8 && l[1] == 32u8);
            assert(rest =~= dec + seq![32u8] + r.identity + seq![32u8] + reason);
            assert(rest[dec.len() as int] == 32u8);
            assert(forall|j: int| 0 <= j < dec.len() ==> rest[j] == dec[j] && rest[j] != 32u8);
            lemma_find_byte_from_props(rest, 32u8, dec.len() as int);
            assert(rest.subrange(0, dec.len() as int) =~= dec);
            assert(parse_timestamp(dec) == Some(r.timestamp));
            let after = rest.subrange(dec.len() as int + 1, rest.len() as int);
            assert(after =~= r.identity + seq![32u8] + reason);
            assert(after[r.identity.len() as int] == 32u8);
            assert(forall|j: int| 0 <= j < r.identity.len() ==> after[j] == r.identity[j]
                && identity_byte_ok(r.identity[j]));
            lemma_find_byte_from_props(after, 32u8, r.identity.len() as int);
            assert(after.subrange(0, r.identity.len() as int) =~= r.identity);
            assert(after.subrange(r.identity.len() as int + 1, after.len() as int) =~= reason);
        },
    }
}

/// Appending one intact encoded record to content that parses yields
/// content that parses to the old records plus the new one. Repeated, this
/// is what makes atomic appends by independent runs safe: however many
/// complete appends land on the file, every record is recovered intact.
pub proof fn lemma_parse_append(c: Seq<u8>, rs: Seq<RecordV>, r: RecordV)
    requires
        parse_content(c) == Some(rs),
        r.wf(),
    ensures
        parse_content(c + enc_record(r)) == Some(rs.push(r)),
    decreases c.len(),
{
    lemma_enc_line_no_nl(r);
    if c.len() == 0 {
        assert(c + enc_record(r) =~= enc_record(r));
        let e = enc_record(r);
        let ll = enc_line(r).len() as int;
        assert(e[ll] == 10u8);
        assert(forall|j: int| 0 <= j < ll ==> e[j] == enc_line(r)[j] && e[j] != 10u8);
        lemma_find_byte_from_props(e, 10u8, ll);
        assert(e.subrange(0, ll) =~= enc_line(r));
        lemma_parse_enc_line(r);
        assert(e.subrange(ll + 1, e.len() as int) =~= Seq::<u8>::empty());
        assert(seq![r] + Seq::<RecordV>::empty() =~= seq![r]);
        assert(find_byte(e, 10u8) == Some(ll));
        assert(parse_line(e.subrange(0, ll)) == Some(r));
        assert(parse_content(Seq::<u8>::empty()) == Some(Seq::<RecordV>::empty()));
        assert(parse_content(e.subrange(ll + 1, e.len() as int)) == Some(Seq::<RecordV>::empty()));
        assert(parse_content(e) == Some(seq![r]));
        assert(rs =~= Seq::<RecordV>::empty());
        assert(seq![r] =~= rs.push(r));
    } else {
        let full = c + enc_record(r);
        lemma_find_byte(c, 10u8);
        let i = find_byte(c, 10u8)->Some_0;
        assert(full[i] == c[i] && c[i] == 10u8);
        assert(forall|j: int| 0 <= j < i ==> full[j] == c[j] && c[j] != 10u8);
        lemma_find_byte_from_props(full, 10u8, i);
        assert(full.subrange(0, i) =~= c.subrange(0, i));
        let rest = c.subrange(i + 1, c.len() as int);
        assert(full.subrange(i + 1, full.len() as int) =~= rest + enc_record(r));
        let r0 = parse_line(c.subrange(0, i))->Some_0;
        let rs0 = parse_content(rest)->Some_0;
        lemma_parse_append(rest, rs0, r);
        assert(seq![r0] + rs0.push(r) =~= (seq![r0] + rs0).push(r));
    }
}

/// A whole encoded ledger of well-formed records parses back to exactly
/// those records, in order and intact.
pub proof fn lemma_parse_enc_records(rs: Seq<RecordV>)
    requires
        forall|i: int| 0 <= i < rs.len() ==> (#[trigger] rs[i]).wf(),
    ensures
        parse_content(enc_records(rs)) == Some(rs),
    decreases rs.len(),
{
    if rs.len() == 0 {
    } else {
        let front = rs.drop_last();
        lemma_parse_enc_records(front);
        lemma_enc_records_push(front, rs.last());
        lemma_parse_append(enc_records(front), front, rs.last());
        assert(front.push(rs.last()) =~= rs);
    }
}

proof fn lemma_enc_records_push(rs: Seq<RecordV>, r: RecordV)
    ensures
        enc_records(rs.push(r)) == enc_records(rs) + enc_record(r),
    decreases rs.len(),
{
    if rs.len() == 0 {
        assert(rs.push(r)[0] == r);
        assert(rs.push(r).drop_first() =~= Seq::<RecordV>::empty());
        assert(enc_records(rs.push(r).drop_first()) == enc_records(Seq::<RecordV>::empty()));
        assert(enc_records(Seq::<RecordV>::empty()) =~= Seq::<u8>::empty());
        assert(enc_record(r) + Seq::<u8>::empty() =~= enc_record(r));
        assert(enc_records(rs.push(r)) =~= enc_record(r));
        assert(enc_records(rs) + enc_record(r) =~= enc_record(r));
    } else {
        lemma_enc_records_push(rs.drop_first(), r);
        assert(rs.push(r).drop_first() =~= rs.drop_first().push(r));
        assert(rs.push(r)[0] == rs[0]);
        assert(enc_record(rs[0]) + (enc_records(rs.drop_first()) + enc_record(r)) =~= (
        enc_record(rs[0]) + enc_records(rs.drop_first())) + enc_record(r));
    }
}

/// Whatever parses is well-formed.
pub proof fn lemma_parse_line_wf(l: Seq<u8>)
    ensures
        parse_line(l) matches Some(r) ==> r.wf(),
{
}

/// Appends the decimal digits of `n`.
pub fn push_dec(out: &mut Vec<u8>, n: u64)
    ensures
        final(out)@ == old(out)@ + dec_rep(n as nat),
    decreases n,
{
    if n < 10 {
        out.push(48 + (n as u8));
        assert(out@ =~= old(out)@ + dec_rep(n as nat));
    } else {
        push_dec(out, n / 10);
        out.push(48 + ((n % 10) as u8));
        assert(out@ =~= old(out)@ + dec_rep(n as nat));
    }
}

/// Appends all of `v`.
pub fn push_all(out: &mut Vec<u8>, v: &Vec<u8>)
    ensures
        final(out)@ == old(out)@ + v@,
{
    let n = v.len();
    let mut i: usize = 0;
    while i < n
        invariant
            n == v.len(),
            i <= n,
            out@ == old(out)@ + v@.subrange(0, i as int),
        decreases n - i,
    {
        out.push(v[i]);
        assert(out@ =~= old(out)@ + v@.subrange(0, i + 1 as int));
        i = i + 1;
    }
    assert(out@ =~= old(out)@ + v@);
}

/// Encodes one record as the bytes to append to the ledger file: one line,
/// terminated by a line break.
pub fn encode_record(r: &PackageRecord) -> (v: Vec<u8>)
    ensures
        v@ == enc_record(r@),
{
    let mut out: Vec<u8> = Vec::new();
    match &r.status {
        PackageStatus::Installed => {
            out.push(73u8);
            out.push(32u8);
            push_dec(&mut out, r.timestamp);
            out.push(32u8);
            push_all(&mut out, r.identity.as_bytes());
            out.push(10u8);
            assert(out@ =~= enc_record(r@));
        },
        PackageStatus::Failed(reason) => {
            out.push(70u8);
            out.push(32u8);
            push_dec(&mut out, r.timestamp);
            out.push(32u8);
            push_all(&mut out, r.identity.as_bytes());
            out.push(32u8);
            push_all(&mut out, reason);
            out.push(10u8);
            assert(out@ =~= enc_record(r@));
        },
    }
    out
}

/// An owned copy of `c[start..end]`.
fn copy_range(c: &Vec<u8>, start: usize, end: usize) -> (r: Vec<u8>)
    requires
        start <= end <= c.len(),
    ensures
        r@ == c@.subrange(start as int, end as int),
{
    let mut out: Vec<u8> = Vec::new();
    let mut i = start;
    while i < end
        invariant
            start <= i <= end <= c.len(),
            out@ == c@.subrange(start as int, i as int),
        decreases end - i,
    {
        out.push(c[i]);
        assert(out@ =~= c@.subrange(start as int, i + 1 as int));
        i = i + 1;
    }
    out
}

/// First occurrence of `b` in `c[start..end]`.
fn scan_byte(c: &Vec<u8>, start: usize, end: usize, b: u8) -> (r: Option<usize>)
    requires
        start <= end <= c.len(),
    ensures
        match r {
            Some(k) => start <= k < end && c@[k as int] == b && find_byte(
                c@.subrange(start as int, end as int),
                b,
            ) == Some(k - start) && (forall|j: int| start <= j < k ==> c@[j] != b),
            None => find_byte(c@.subrange(start as int, end as int), b) is None && (forall|j: int|
                start <= j < end ==> c@[j] != b),
        },
{
    let ghost s = c@.subrange(start as int, end as int);
    let mut i = start;
    while i < end
        invariant
            start <= i <= end <= c.len(),
            s == c@.subrange(start as int, end as int),
            forall|j: int| start <= j < i ==> c@[j] != b,
        decreases end - i,
    {
        if c[i] == b {
            proof {
                assert(s[i - start] == b);
                assert(forall|j: int| 0 <= j < i - start ==> s[j] == c@[start + j] && c@[start + j]
                    != b);
                lemma_find_byte_from_props(s, b, i - start);
            }
            return Some(i);
        }
        i = i + 1;
    }
    proof {
        assert(forall|j: int| 0 <= j < s.len() ==> s[j] == c@[start + j] && c@[start + j] != b);
        lemma_find_byte_none(s, b);
    }
    None
}

/// Parses the timestamp field in `c[start..end]`.
fn parse_ts_range(c: &Vec<u8>, start: usize, end: usize) -> (r: Option<u64>)
    requires
        start <= end <= c.len(),
    ensures
        match r {
            Some(v) => parse_timestamp(c@.subrange(start as int, end as int)) == Some(v),
            None => parse_timestamp(c@.subrange(start as int, end as int)) is None,
        },
{
    let ghost s = c@.subrange(start as int, end as int);
    if start == end {
        return None;
    }
    let mut val: u64 = 0;
    let mut i = start;
    while i < end
        invariant
            start <= i <= end <= c.len(),
            start < end,
            s == c@.subrange(start as int, end as int),
            forall|j: int| 0 <= j < i - start ==> is_digit(#[trigger] s[j]),
            val == digits_val(s.subrange(0, i - start)),
        decreases end - i,
    {
        let b = c[i];
        proof {
            assert(s[i - start] == b);
        }
        if b < 48 || b > 57 {
            proof {
                assert(!is_digit(s[i - start]));
            }
            return None;
        }
        let d = (b - 48) as u64;
        proof {
            assert(s.subrange(0, i - start + 1).drop_last() =~= s.subrange(0, i - start));
            assert(s.subrange(0, i - start + 1).last() == b);
            assert(digits_val(s.subrange(0, i - start + 1)) == val * 10 + d);
        }
        let next = match val.checked_mul(10) {
            None => None,
            Some(v10) => v10.checked_add(d),
        };
        match next {
            None => {
                proof {
                    assert(digits_val(s.subrange(0, i - start + 1)) > u64::MAX);
                    lemma_digits_val_prefix(s, i - start + 1);
                }
                return None;
            },
            Some(v) => {
                val = v;
            },
        }
        i = i + 1;
    }
    proof {
        assert(s.subrange(0, end - start) =~= s);
    }
    Some(val)
}

/// Parses one record line held in `c[start..end]` (no line break inside).
fn parse_line_range(c: &Vec<u8>, start: usize, end: usize) -> (r: Option<PackageRecord>)
    requires
        start <= end <= c.len(),
        forall|j: int| start <= j < end ==> c@[j] != 10u8,
    ensures
        match r {
            Some(rec) => parse_line(c@.subrange(start as int, end as int)) == Some(rec@),
            None => parse_line(c@.subrange(start as int, end as int)) is None,
        },
{
    let ghost l = c@.subrange(start as int, end as int);
    if end - start < 2 {
        return None;
    }
    let kind = c[start];
    proof {
        assert(l[0] == kind);
        assert(l[1] == c@[start + 1]);
    }
    if kind != 73u8 && kind != 70u8 {
        return None;
    }
    if c[start + 1] != 32u8 {
        return None;
    }
    let ghost rest = l.subrange(2, l.len() as int);
    proof {
        assert(rest =~= c@.subrange(start + 2, end as int));
    }
    let sp = match scan_byte(c, start + 2, end, 32u8) {
        None => {
            return None;
        },
        Some(sp) => sp,
    };
    proof {
        assert(find_byte(rest, 32u8) == Some(sp - (start + 2)));
        assert(rest.subrange(0, sp - (start + 2)) =~= c@.subrange(start + 2, sp as int));
    }
    let ts = match parse_ts_range(c, start + 2, sp) {
        None => {
            return None;
        },
        Some(ts) => ts,
    };
    let ghost after = rest.subrange(sp - (start + 2) + 1, rest.len() as int);
    proof {
        assert(after =~= c@.subrange(sp + 1, end as int));
    }
    if kind == 73u8 {
        let idv = copy_range(c, sp + 1, end);
        match PackageIdentity::new(idv) {
            None => {
                assert(!valid_identity(after));
                None
            },
            Some(id) => {
                let rec = PackageRecord { identity: id, status: PackageStatus::Installed, timestamp: ts };
                assert(rec@ == (RecordV { identity: after, status: StatusV::Installed, timestamp: ts }));
                Some(rec)
            },
        }
    } else {
        let sp2 = match scan_byte(c, sp + 1, end, 32u8) {
            None => {
                return None;
            },
            Some(sp2) => sp2,
        };
        proof {
            assert(find_byte(after, 32u8) == Some(sp2 - (sp + 1)));
            assert(after.subrange(0, sp2 - (sp + 1)) =~= c@.subrange(sp + 1, sp2 as int));
            assert(after.subrange(sp2 - (sp + 1) + 1, after.len() as int) =~= c@.subrange(
                sp2 + 1,
                end as int,
            ));
        }
        let idv = copy_range(c, sp + 1, sp2);
        let reason = copy_range(c, sp2 + 1, end);
        proof {
            assert(valid_reason(reason@));
        }
        match PackageIdentity::new(idv) {
            None => {
                assert(!valid_identity(after.subrange(0, sp2 - (sp + 1))));
                None
            },
            Some(id) => {
                let rec = PackageRecord {
                    identity: id,
                    status: PackageStatus::Failed(reason),
                    timestamp: ts,
                };
                assert(rec@ == (RecordV {
                    identity: after.subrange(0, sp2 - (sp + 1)),
                    status: StatusV::Failed(after.subrange(sp2 - (sp + 1) + 1, after.len() as int)),
                    timestamp: ts,
                }));
                Some(rec)
            },
        }
    }
}

/// Parses full ledger content into records; `Corrupt` exactly when the
/// content is not a sequence of well-formed record lines.
pub fn parse_all(content: &Vec<u8>) -> (r: Result<Vec<PackageRecord>, LedgerError>)
    ensures
        match parse_content(content@) {
            Some(rvs) => r matches Ok(recs) && views_of(recs@) == rvs,
            None => r == Err::<Vec<PackageRecord>, LedgerError>(LedgerError::Corrupt),
        },
{
    let n = content.len();
    let mut pos: usize = 0;
    let mut out: Vec<PackageRecord> = Vec::new();
    proof {
        assert(content@.subrange(0, n as int) =~= content@);
        assert(views_of(out@) =~= Seq::<RecordV>::empty());
        match parse_content(content@) {
            Some(rest) => {
                assert(views_of(out@) + rest =~= rest);
            },
            None => {},
        }
    }
    while pos < n
        invariant
            pos <= n == content.len(),
            match parse_content(content@.subrange(pos as int, n as int)) {
                Some(rest) => parse_content(content@) == Some(views_of(out@) + rest),
                None => parse_content(content@) is None,
            },
        decreases n - pos,
    {
        let ghost rem = content@.subrange(pos as int, n as int);
        let nl = match scan_byte(content, pos, n, 10u8) {
            None => {
                proof {
                    assert(parse_content(rem) is None);
                }
                return Err(LedgerError::Corrupt);
            },
            Some(nl) => nl,
        };
        proof {
            assert(find_byte(rem, 10u8) == Some(nl - pos));
            assert(rem.subrange(0, nl - pos) =~= content@.subrange(pos as int, nl as int));
        }
        let rec = match parse_line_range(content, pos, nl) {
            None => {
                proof {
                    assert(parse_content(rem) is None);
                }
                return Err(LedgerError::Corrupt);
            },
            Some(rec) => rec,
        };
        let ghost rem2 = rem.subrange(nl - pos + 1, rem.len() as int);
        proof {
            assert(rem2 =~= content@.subrange(nl + 1, n as int));
        }
        let ghost out_before = out@;
        out.push(rec);
        pos = nl + 1;
        proof {
            assert(views_of(out@) =~= views_of(out_before).push(rec@));
            match parse_content(rem2) {
                Some(rest2) => {
                    assert(parse_content(rem) == Some(seq![rec@] + rest2));
                    assert(views_of(out_before) + (seq![rec@] + rest2) =~= views_of(out@) + rest2);
                },
                None => {
                    assert(parse_content(rem) is None);
                },
            }
        }
    }
    proof {
        assert(content@.subrange(pos as int, n as int) =~= Seq::<u8>::empty());
        assert(parse_content(Seq::<u8>::empty()) == Some(Seq::<RecordV>::empty()));
        assert(views_of(out@) + Seq::<RecordV>::empty() =~= views_of(out@));
    }
    Ok(out)
}

pub proof fn lemma_parse_content_wf(c: Seq<u8>)
    ensures
        parse_content(c) matches Some(rs) ==> forall|i: int| 0 <= i < rs.len() ==> (
        #[trigger] rs[i]).wf(),
    decreases c.len(),
{
    if c.len() > 0 {
        lemma_find_byte(c, 10u8);
        match find_byte(c, 10u8) {
            None => {},
            Some(i) => {
                lemma_parse_line_wf(c.subrange(0, i));
                lemma_parse_content_wf(c.subrange(i + 1, c.len() as int));
            },
        }
    }
}

} // verus!
