//! The persisted access-token cache.
//!
//! One flat JSON record, `{"access_token": <string>, "timestamp": <seconds>}`,
//! holds the last token obtained and when it was issued.  A token is fresh
//! for seven days from its timestamp, boundary included; resolution never
//! touches the file system itself: the host hands the file's text in (or
//! `None` when there is no readable file) and performs any write.

use vstd::prelude::*;
use crate::json::{
    spec_parse_string_at, spec_parse_u64_at, spec_skip_ws, spec_render_string, spec_u64_digits,
    parse_string_at, parse_u64_at, skip_ws, render_string_into, push_u64,
    lemma_digit_run_exact, lemma_parse_rendered_string, lemma_u64_digits_value,
};
use crate::text::{chars_to_string, str_to_chars};

verus! {

/// Seconds a cached token stays usable after issuance.
pub const TOKEN_TTL_SECS: u64 = 604800;

/// The persisted record: an opaque bearer token and its issuance time.
pub struct CachedToken {
    pub token: String,
    pub issued_at: u64,
}

pub struct CachedTokenV {
    pub token: Seq<char>,
    pub issued_at: u64,
}

impl View for CachedToken {
    type V = CachedTokenV;

    open spec fn view(&self) -> CachedTokenV {
        CachedTokenV { token: self.token@, issued_at: self.issued_at }
    }
}

pub open spec fn token_key() -> Seq<char> {
    seq!['a', 'c', 'c', 'e', 's', 's', '_', 't', 'o', 'k', 'e', 'n']
}

pub open spec fn timestamp_key() -> Seq<char> {
    seq!['t', 'i', 'm', 'e', 's', 't', 'a', 'm', 'p']
}

/// Parse record members from `i` (at a key string), keeping the last
/// `access_token` (string) and `timestamp` (unsigned integer) seen.
/// Member values must be strings or unsigned integers.
pub open spec fn spec_parse_cache_members(
    s: Seq<char>,
    i: int,
    t: Option<Seq<char>>,
    ts: Option<int>,
) -> Option<((Option<Seq<char>>, Option<int>), int)>
    decreases s.len() - i
        when 0 <= i <= s.len()
{
    match spec_parse_string_at(s, i) {
        None => None,
        Some(kv) => {
            let j2: int = spec_skip_ws(s, kv.1);
            if !(j2 < s.len() && s[j2] == ':') {
                None
            } else {
                let j3: int = spec_skip_ws(s, j2 + 1);
                match spec_parse_string_at(s, j3) {
                    Some(vv) => {
                        let nt = if kv.0 == token_key() {
                            Some(vv.0)
                        } else {
                            t
                        };
                        let j5: int = spec_skip_ws(s, vv.1);
                        if j5 < s.len() && s[j5] == ',' {
                            let j6: int = spec_skip_ws(s, j5 + 1);
                            if i < j6 <= s.len() {
                                spec_parse_cache_members(s, j6, nt, ts)
                            } else {
                                None
                            }
                        } else if j5 < s.len() && s[j5] == '}' {
                            Some(((nt, ts), j5 + 1))
                        } else {
                            None
                        }
                    },
                    None => match spec_parse_u64_at(s, j3) {
                        Some(nv) => {
                            let nts = if kv.0 == timestamp_key() {
                                Some(nv.0)
                            } else {
                                ts
                            };
                            let j5: int = spec_skip_ws(s, nv.1);
                            if j5 < s.len() && s[j5] == ',' {
                                let j6: int = spec_skip_ws(s, j5 + 1);
                                if i < j6 <= s.len() {
                                    spec_parse_cache_members(s, j6, t, nts)
                                } else {
                                    None
                                }
                            } else if j5 < s.len() && s[j5] == '}' {
                                Some(((t, nts), j5 + 1))
                            } else {
                                None
                            }
                        },
                        None => None,
                    },
                }
            }
        },
    }
}

/// Parse a whole cache record: one JSON object with both members present,
/// nothing but whitespace around it.
pub open spec fn spec_parse_cache_record(s: Seq<char>) -> Option<CachedTokenV> {
    let i: int = spec_skip_ws(s, 0);
    if !(i < s.len() && s[i] == '{') {
        None
    } else {
        let j: int = spec_skip_ws(s, i + 1);
        match spec_parse_cache_members(s, j, None, None) {
            None => None,
            Some(t) => match t.0 {
                (Some(tok), Some(ts)) => {
                    if spec_skip_ws(s, t.1) == s.len() {
                        Some(CachedTokenV { token: tok, issued_at: ts as u64 })
                    } else {
                        None
                    }
                },
                _ => None,
            },
        }
    }
}

pub open spec fn ov(o: Option<Vec<char>>) -> Option<Seq<char>> {
    match o {
        Some(v) => Some(v@),
        None => None,
    }
}

pub open spec fn ou(o: Option<u64>) -> Option<int> {
    match o {
        Some(v) => Some(v as int),
        None => None,
    }
}

fn chars_eq_token_key(v: &Vec<char>) -> (b: bool)
    ensures
        b == (v@ == token_key()),
{
    if v.len() == 12 && v[0] == 'a' && v[1] == 'c' && v[2] == 'c' && v[3] == 'e' && v[4] == 's'
        && v[5] == 's' && v[6] == '_' && v[7] == 't' && v[8] == 'o' && v[9] == 'k' && v[10] == 'e'
        && v[11] == 'n' {
        assert(v@ =~= token_key());
        true
    } else {
        assert(v@ != token_key()) by {
            if v@ == token_key() {
                assert(v@.len() == 12);
                assert(v@[0] == 'a' && v@[1] == 'c' && v@[2] == 'c' && v@[3] == 'e' && v@[4] == 's'
                    && v@[5] == 's' && v@[6] == '_' && v@[7] == 't' && v@[8] == 'o' && v@[9] == 'k'
                    && v@[10] == 'e' && v@[11] == 'n');
            }
        }
        false
    }
}

fn chars_eq_timestamp_key(v: &Vec<char>) -> (b: bool)
    ensures
        b == (v@ == timestamp_key()),
{
    if v.len() == 9 && v[0] == 't' && v[1] == 'i' && v[2] == 'm' && v[3] == 'e' && v[4] == 's'
        && v[5] == 't' && v[6] == 'a' && v[7] == 'm' && v[8] == 'p' {
        assert(v@ =~= timestamp_key());
        true
    } else {
        assert(v@ != timestamp_key()) by {
            if v@ == timestamp_key() {
                assert(v@.len() == 9);
                assert(v@[0] == 't' && v@[1] == 'i' && v@[2] == 'm' && v@[3] == 'e' && v@[4] == 's'
                    && v@[5] == 't' && v@[6] == 'a' && v@[7] == 'm' && v@[8] == 'p');
            }
        }
        false
    }
}

fn parse_cache_members_at(s: &Vec<char>, i: usize, t0: Option<Vec<char>>, ts0: Option<u64>) -> (res:
    Option<((Option<Vec<char>>, Option<u64>), usize)>)
    requires
        i <= s@.len(),
    ensures
        match res {
            Some(r) => spec_parse_cache_members(s@, i as int, ov(t0), ou(ts0)) == Some(
                ((ov(r.0.0), ou(r.0.1)), r.1 as int),
            ) && i < r.1 <= s@.len(),
            None => spec_parse_cache_members(s@, i as int, ov(t0), ou(ts0)) is None,
        },
    decreases s@.len() - i,
{
    match parse_string_at(s, i) {
        None => None,
        Some((key, j)) => {
            let j2: usize = skip_ws(s, j);
            if !(j2 < s.len() && s[j2] == ':') {
                return None;
            }
            let j3: usize = skip_ws(s, j2 + 1);
            let sv = parse_string_at(s, j3);
            let mut j4: usize = 0;
            let mut nt = t0;
            let mut nts = ts0;
            match sv {
                Some((val, js)) => {
                    j4 = js;
                    if chars_eq_token_key(&key) {
                        nt = Some(val);
                    }
                },
                None => {
                    match parse_u64_at(s, j3) {
                        Some((n, ju)) => {
                            j4 = ju;
                            if chars_eq_timestamp_key(&key) {
                                nts = Some(n);
                            }
                        },
                        None => {
                            return None;
                        },
                    }
                },
            }
            let j5: usize = skip_ws(s, j4);
            if j5 < s.len() && s[j5] == ',' {
                let j6: usize = skip_ws(s, j5 + 1);
                assert(i < j6 <= s@.len());
                parse_cache_members_at(s, j6, nt, nts)
            } else if j5 < s.len() && s[j5] == '}' {
                Some(((nt, nts), j5 + 1))
            } else {
                None
            }
        },
    }
}

/// Parse a cache record, exactly as `spec_parse_cache_record`.
pub fn parse_cache_record(s: &Vec<char>) -> (res: Option<CachedToken>)
    ensures
        match res {
            Some(r) => spec_parse_cache_record(s@) == Some(r@),
            None => spec_parse_cache_record(s@) is None,
        },
{
    let i: usize = skip_ws(s, 0);
    if !(i < s.len() && s[i] == '{') {
        return None;
    }
    let j: usize = skip_ws(s, i + 1);
    match parse_cache_members_at(s, j, None, None) {
        None => None,
        Some(((t, ts), end)) => match (t, ts) {
            (Some(tok), Some(n)) => {
                let e: usize = skip_ws(s, end);
                if e == s.len() {
                    Some(CachedToken { token: chars_to_string(&tok), issued_at: n })
                } else {
                    None
                }
            },
            _ => None,
        },
    }
}

/// The rendered cache record for a token issued at `now`.
pub open spec fn spec_render_record(token: Seq<char>, now: u64) -> Seq<char> {
    seq!['{'] + spec_render_string(token_key()) + seq![':'] + spec_render_string(token) + seq![',']
        + spec_render_string(timestamp_key()) + seq![':'] + spec_u64_digits(now as int)
        + seq!['}']
}

/// Render the record to persist for a token issued at `now`.
pub fn render_cache_record(token: &str, now: u64) -> (r: String)
    ensures
        r@ == spec_render_record(token@, now),
{
    let mut out: Vec<char> = Vec::new();
    out.push('{');
    let mut key: Vec<char> = Vec::new();
    key.push('a');
    key.push('c');
    key.push('c');
    key.push('e');
    key.push('s');
    key.push('s');
    key.push('_');
    key.push('t');
    key.push('o');
    key.push('k');
    key.push('e');
    key.push('n');
    assert(key@ =~= token_key());
    render_string_into(&mut out, &key);
    out.push(':');
    let tok = str_to_chars(token);
    render_string_into(&mut out, &tok);
    out.push(',');
    let mut key2: Vec<char> = Vec::new();
    key2.push('t');
    key2.push('i');
    key2.push('m');
    key2.push('e');
    key2.push('s');
    key2.push('t');
    key2.push('a');
    key2.push('m');
    key2.push('p');
    assert(key2@ =~= timestamp_key());
    render_string_into(&mut out, &key2);
    out.push(':');
    push_u64(&mut out, now);
    out.push('}');
    proof {
        assert(out@ =~= spec_render_record(token@, now));
    }
    chars_to_string(&out)
}

/// Is a token issued at `issued_at` still usable at `now`?  The boundary
/// itself is fresh: an age of exactly `TOKEN_TTL_SECS` passes.
pub open spec fn token_fresh(issued_at: u64, now: u64) -> bool {
    now - issued_at <= TOKEN_TTL_SECS
}

/// Cache freshness boundary: a token aged exactly the time-to-live is
/// still fresh; one second older is not.
pub proof fn lemma_freshness_boundary(now: u64)
    requires
        now >= TOKEN_TTL_SECS + 1,
    ensures
        token_fresh((now - TOKEN_TTL_SECS) as u64, now),
        !token_fresh((now - TOKEN_TTL_SECS - 1) as u64, now),
{
}

/// Outcome of a cache lookup: a fresh token, no usable record, or a
/// record whose token has expired.
pub enum CacheLookup {
    Hit(String),
    Miss,
    Expired,
}

/// Resolve the cache from the file's text (or `None` when the file was
/// absent or unreadable): a parse failure is a miss, a stale record is
/// expired, and otherwise the stored token is returned unchanged.
pub fn resolve_cached(content: Option<&str>, now: u64) -> (r: CacheLookup)
    ensures
        match content {
            None => r is Miss,
            Some(text) => match spec_parse_cache_record(text@) {
                None => r is Miss,
                Some(rec) => {
                    if token_fresh(rec.issued_at, now) {
                        r matches CacheLookup::Hit(t) && t@ == rec.token
                    } else {
                        r is Expired
                    }
                },
            },
        },
{
    match content {
        None => CacheLookup::Miss,
        Some(text) => {
            let chars = str_to_chars(text);
            match parse_cache_record(&chars) {
                None => CacheLookup::Miss,
                Some(rec) => {
                    if rec.issued_at >= now || now - rec.issued_at <= TOKEN_TTL_SECS {
                        CacheLookup::Hit(rec.token)
                    } else {
                        CacheLookup::Expired
                    }
                },
            }
        },
    }
}


/// What is persisted is read back: parsing a rendered record yields
/// exactly the token and timestamp that were written.
#[verifier::rlimit(100)]
#[verifier::spinoff_prover]
pub proof fn lemma_record_round_trip(token: Seq<char>, now: u64)
    ensures
        spec_parse_cache_record(spec_render_record(token, now)) == Some(
            CachedTokenV { token: token, issued_at: now },
        ),
{
    let b = spec_render_record(token, now);
    let rs1 = spec_render_string(token_key());
    let rs2 = spec_render_string(token);
    let rs3 = spec_render_string(timestamp_key());
    let dd = spec_u64_digits(now as int);
    let q1: int = 1 + rs1.len() as int;
    let p2: int = q1 + 1;
    let q2: int = p2 + rs2.len() as int;
    let p3: int = q2 + 1;
    let q3: int = p3 + rs3.len() as int;
    let pd: int = q3 + 1;
    let pe: int = pd + dd.len() as int;
    let pre1 = seq!['{'];
    let rest1 = seq![':'] + rs2 + seq![','] + rs3 + seq![':'] + dd + seq!['}'];
    let pre2 = pre1 + rs1 + seq![':'];
    let rest2 = seq![','] + rs3 + seq![':'] + dd + seq!['}'];
    let pre3 = pre2 + rs2 + seq![','];
    let rest3 = seq![':'] + dd + seq!['}'];
    let pre4 = pre3 + rs3 + seq![':'];
    let rest4 = dd + seq!['}'];
    assert(b =~= pre1 + (rs1 + rest1));
    assert(b =~= pre2 + (rs2 + rest2));
    assert(b =~= pre3 + (rs3 + rest3));
    assert(b =~= pre4 + rest4);
    assert(b.len() == pe + 1);
    assert(pre2.len() == p2);
    assert(pre3.len() == p3);
    assert(pre4.len() == pd);
    lemma_u64_digits_value(now as int);
    assert(dd.len() > 0);
    // the three strings parse back to their contents
    lemma_parse_rendered_string(token_key(), pre1, rest1);
    assert(spec_parse_string_at(b, 1) == Some((token_key(), q1)));
    lemma_parse_rendered_string(token, pre2, rest2);
    assert(spec_parse_string_at(b, p2) == Some((token, q2)));
    lemma_parse_rendered_string(timestamp_key(), pre3, rest3);
    assert(spec_parse_string_at(b, p3) == Some((timestamp_key(), q3)));
    // the separating punctuation
    assert(b[0] == '{');
    assert(b[q1] == ':') by {
        assert(b =~= (pre1 + rs1) + rest1);
        assert(b[q1] == rest1[0]);
    }
    assert(b[q2] == ',') by {
        assert(b =~= (pre2 + rs2) + rest2);
        assert(b[q2] == rest2[0]);
    }
    assert(b[q3] == ':') by {
        assert(b =~= (pre3 + rs3) + rest3);
        assert(b[q3] == rest3[0]);
    }
    assert(b[1] == '"') by {
        assert(b[1] == (rs1 + rest1)[0]);
        assert(rs1[0] == '"');
    }
    assert(b[p2] == '"') by {
        assert(b[p2] == (rs2 + rest2)[0]);
        assert(rs2[0] == '"');
    }
    assert(b[p3] == '"') by {
        assert(b[p3] == (rs3 + rest3)[0]);
        assert(rs3[0] == '"');
    }
    // the digits and the closing brace
    assert forall|m: int| 0 <= m < dd.len() implies b[pd + m] == dd[m] by {
        assert(b[pd + m] == rest4[m]);
    }
    assert(b[pe] == '}') by {
        assert(b[pe] == rest4[dd.len() as int]);
    }
    assert forall|k: int| pd <= k < pe implies crate::decimal::is_digit(#[trigger] b[k]) by {
        assert(b[k] == dd[k - pd]);
    }
    assert(!crate::decimal::is_digit(b[pe]));
    lemma_digit_run_exact(b, pd, pe);
    assert(b.subrange(pd, pe) =~= dd);
    assert(spec_parse_u64_at(b, pd) == Some((now as int, pe)));
    assert(spec_parse_string_at(b, pd) is None) by {
        assert(crate::decimal::is_digit(b[pd]));
    }
    // whitespace skipping is the identity at every stop
    assert(spec_skip_ws(b, 0) == 0);
    assert(spec_skip_ws(b, 1) == 1);
    assert(spec_skip_ws(b, q1) == q1);
    assert(spec_skip_ws(b, q1 + 1) == p2);
    assert(spec_skip_ws(b, q2) == q2);
    assert(spec_skip_ws(b, q2 + 1) == p3);
    assert(spec_skip_ws(b, q3) == q3);
    assert(spec_skip_ws(b, q3 + 1) == pd);
    assert(spec_skip_ws(b, pe) == pe);
    assert(spec_skip_ws(b, pe + 1) == pe + 1);
    // the second member: the timestamp
    assert(spec_parse_cache_members(b, p3, Some(token), None) == Some(
        ((Some(token), Some(now as int)), pe + 1),
    ));
    // the first member: the token, then the comma into the second
    assert(spec_parse_cache_members(b, 1, None, None) == Some(
        ((Some(token), Some(now as int)), pe + 1),
    ));
    // the record wrapper
    assert((now as int) as u64 == now);
}

} // verus!
