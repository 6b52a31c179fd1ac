//! The prompt template: an ordered sequence of role-tagged messages.
//!
//! A template arrives as JSON text: an array of objects whose `role` and
//! `content` members are strings.  Parsing is exact: the functions here
//! return a message list precisely when the text matches that grammar
//! (whitespace allowed between tokens, later duplicate members win,
//! members other than `role` and `content` are accepted and ignored as
//! long as their values are strings).

use vstd::prelude::*;
use crate::json::{spec_parse_string_at, spec_skip_ws, parse_string_at, skip_ws};
use crate::text::chars_to_string;

verus! {

/// One template message.
pub struct Message {
    pub role: String,
    pub content: String,
}

pub struct MessageV {
    pub role: Seq<char>,
    pub content: Seq<char>,
}

impl View for Message {
    type V = MessageV;

    open spec fn view(&self) -> MessageV {
        MessageV { role: self.role@, content: self.content@ }
    }
}

pub open spec fn role_key() -> Seq<char> {
    seq!['r', 'o', 'l', 'e']
}

pub open spec fn content_key() -> Seq<char> {
    seq!['c', 'o', 'n', 't', 'e', 'n', 't']
}

pub open spec fn oview(o: Option<Vec<char>>) -> Option<Seq<char>> {
    match o {
        Some(v) => Some(v@),
        None => None,
    }
}

pub open spec fn msgs_view(ms: Seq<Message>) -> Seq<MessageV> {
    ms.map_values(|m: Message| m@)
}

/// Parse object members from `i` (at a key string), tracking the last
/// `role` and `content` values seen, up to the closing brace.
pub open spec fn spec_parse_members(
    s: Seq<char>,
    i: int,
    r: Option<Seq<char>>,
    c: Option<Seq<char>>,
) -> Option<((Option<Seq<char>>, Option<Seq<char>>), int)>
    decreases s.len() - i
        when 0 <= i <= s.len()
{
    match spec_parse_string_at(s, i) {
        None => None,
        Some(kv) => {
            let j2: int = spec_skip_ws(s, kv.1);
            if !(j2 < s.len() && s[j2] == ':') {
                None
            } else {
                let j3: int = spec_skip_ws(s, j2 + 1);
                match spec_parse_string_at(s, j3) {
                    None => None,
                    Some(vv) => {
                        let nr = if kv.0 == role_key() {
                            Some(vv.0)
                        } else {
                            r
                        };
                        let nc = if kv.0 == content_key() {
                            Some(vv.0)
                        } else {
                            c
                        };
                        let j5: int = spec_skip_ws(s, vv.1);
                        if j5 < s.len() && s[j5] == ',' {
                            let j6: int = spec_skip_ws(s, j5 + 1);
                            if i < j6 <= s.len() {
                                spec_parse_members(s, j6, nr, nc)
                            } else {
                                None
                            }
                        } else if j5 < s.len() && s[j5] == '}' {
                            Some(((nr, nc), j5 + 1))
                        } else {
                            None
                        }
                    },
                }
            }
        },
    }
}

/// Parse one message object at `i`: both `role` and `content` must be
/// present as string members.
pub open spec fn spec_parse_object(s: Seq<char>, i: int) -> Option<(MessageV, int)> {
    if !(0 <= i < s.len() && s[i] == '{') {
        None
    } else {
        let j: int = spec_skip_ws(s, i + 1);
        match spec_parse_members(s, j, None, None) {
            None => None,
            Some(t) => match t.0 {
                (Some(r), Some(c)) => Some((MessageV { role: r, content: c }, t.1)),
                _ => None,
            },
        }
    }
}

/// Parse array elements from `i` (at an object), up to the closing bracket.
pub open spec fn spec_parse_elements(s: Seq<char>, i: int, acc: Seq<MessageV>) -> Option<
    (Seq<MessageV>, int),
>
    decreases s.len() - i
        when 0 <= i <= s.len()
{
    match spec_parse_object(s, i) {
        None => None,
        Some(m) => {
            let j2: int = spec_skip_ws(s, m.1);
            if j2 < s.len() && s[j2] == ',' {
                let j3: int = spec_skip_ws(s, j2 + 1);
                if i < j3 <= s.len() {
                    spec_parse_elements(s, j3, acc.push(m.0))
                } else {
                    None
                }
            } else if j2 < s.len() && s[j2] == ']' {
                Some((acc.push(m.0), j2 + 1))
            } else {
                None
            }
        },
    }
}

/// Parse a whole template: a JSON array of message objects, possibly
/// empty, with nothing but whitespace around it.
pub open spec fn spec_parse_template(s: Seq<char>) -> Option<Seq<MessageV>> {
    let i: int = spec_skip_ws(s, 0);
    if !(i < s.len() && s[i] == '[') {
        None
    } else {
        let j: int = spec_skip_ws(s, i + 1);
        if j < s.len() && s[j] == ']' {
            if spec_skip_ws(s, j + 1) == s.len() {
                Some(Seq::<MessageV>::empty())
            } else {
                None
            }
        } else {
            match spec_parse_elements(s, j, Seq::<MessageV>::empty()) {
                None => None,
                Some(t) => {
                    if spec_skip_ws(s, t.1) == s.len() {
                        Some(t.0)
                    } else {
                        None
                    }
                },
            }
        }
    }
}

fn chars_eq_role(v: &Vec<char>) -> (b: bool)
    ensures
        b == (v@ == role_key()),
{
    if v.len() == 4 && v[0] == 'r' && v[1] == 'o' && v[2] == 'l' && v[3] == 'e' {
        assert(v@ =~= role_key());
        true
    } else {
        assert(v@ != role_key()) by {
            if v@ == role_key() {
                assert(v@.len() == 4);
                assert(v@[0] == 'r' && v@[1] == 'o' && v@[2] == 'l' && v@[3] == 'e');
            }
        }
        false
    }
}

fn chars_eq_content(v: &Vec<char>) -> (b: bool)
    ensures
        b == (v@ == content_key()),
{
    if v.len() == 7 && v[0] == 'c' && v[1] == 'o' && v[2] == 'n' && v[3] == 't' && v[4] == 'e'
        && v[5] == 'n' && v[6] == 't' {
        assert(v@ =~= content_key());
        true
    } else {
        assert(v@ != content_key()) by {
            if v@ == content_key() {
                assert(v@.len() == 7);
                assert(v@[0] == 'c' && v@[1] == 'o' && v@[2] == 'n' && v@[3] == 't' && v@[4] == 'e'
                    && v@[5] == 'n' && v@[6] == 't');
            }
        }
        false
    }
}

fn parse_members_at(s: &Vec<char>, i: usize, r0: Option<Vec<char>>, c0: Option<Vec<char>>) -> (res:
    Option<((Option<Vec<char>>, Option<Vec<char>>), usize)>)
    requires
        i <= s@.len(),
    ensures
        match res {
            Some(t) => spec_parse_members(s@, i as int, oview(r0), oview(c0)) == Some(
                ((oview(t.0.0), oview(t.0.1)), t.1 as int),
            ) && i < t.1 <= s@.len(),
            None => spec_parse_members(s@, i as int, oview(r0), oview(c0)) is None,
        },
    decreases s@.len() - i,
{
    match parse_string_at(s, i) {
        None => None,
        Some((key, j)) => {
            let j2: usize = skip_ws(s, j);
            if !(j2 < s.len() && s[j2] == ':') {
                return None;
            }
            let j3: usize = skip_ws(s, j2 + 1);
            match parse_string_at(s, j3) {
                None => None,
                Some((v, j4)) => {
                    let is_role = chars_eq_role(&key);
                    let is_content = chars_eq_content(&key);
                    assert(role_key() != content_key()) by {
                        assert(role_key().len() != content_key().len());
                    }
                    let (nr, nc): (Option<Vec<char>>, Option<Vec<char>>) = if is_role {
                        (Some(v), c0)
                    } else if is_content {
                        (r0, Some(v))
                    } else {
                        (r0, c0)
                    };
                    let j5: usize = skip_ws(s, j4);
                    if j5 < s.len() && s[j5] == ',' {
                        let j6: usize = skip_ws(s, j5 + 1);
                        assert(i < j6 <= s@.len());
                        parse_members_at(s, j6, nr, nc)
                    } else if j5 < s.len() && s[j5] == '}' {
                        Some(((nr, nc), j5 + 1))
                    } else {
                        None
                    }
                },
            }
        },
    }
}

fn parse_object_at(s: &Vec<char>, i: usize) -> (res: Option<(Message, usize)>)
    requires
        i <= s@.len(),
    ensures
        match res {
            Some(t) => spec_parse_object(s@, i as int) == Some((t.0@, t.1 as int)) && i < t.1
                <= s@.len(),
            None => spec_parse_object(s@, i as int) is None,
        },
{
    if !(i < s.len() && s[i] == '{') {
        return None;
    }
    let j: usize = skip_ws(s, i + 1);
    match parse_members_at(s, j, None, None) {
        None => None,
        Some(((r, c), end)) => match (r, c) {
            (Some(rv), Some(cv)) => {
                let m = Message { role: chars_to_string(&rv), content: chars_to_string(&cv) };
                Some((m, end))
            },
            _ => None,
        },
    }
}

fn parse_elements_at(s: &Vec<char>, i: usize, acc: Vec<Message>) -> (res: Option<
    (Vec<Message>, usize)>)
    requires
        i <= s@.len(),
    ensures
        match res {
            Some(t) => spec_parse_elements(s@, i as int, msgs_view(acc@)) == Some(
                (msgs_view(t.0@), t.1 as int),
            ) && i < t.1 <= s@.len(),
            None => spec_parse_elements(s@, i as int, msgs_view(acc@)) is None,
        },
    decreases s@.len() - i,
{
    match parse_object_at(s, i) {
        None => None,
        Some((m, j)) => {
            let ghost mv = m@;
            let j2: usize = skip_ws(s, j);
            if j2 < s.len() && s[j2] == ',' {
                let j3: usize = skip_ws(s, j2 + 1);
                let mut acc2 = acc;
                let ghost acc_view = msgs_view(acc2@);
                acc2.push(m);
                proof {
                    assert(msgs_view(acc2@) =~= acc_view.push(mv));
                }
                assert(i < j3 <= s@.len());
                parse_elements_at(s, j3, acc2)
            } else if j2 < s.len() && s[j2] == ']' {
                let mut acc2 = acc;
                let ghost acc_view = msgs_view(acc2@);
                acc2.push(m);
                proof {
                    assert(msgs_view(acc2@) =~= acc_view.push(mv));
                }
                Some((acc2, j2 + 1))
            } else {
                None
            }
        },
    }
}

/// Parse a template, exactly as `spec_parse_template`.
pub fn parse_template(s: &Vec<char>) -> (res: Option<Vec<Message>>)
    ensures
        match res {
            Some(v) => spec_parse_template(s@) == Some(msgs_view(v@)),
            None => spec_parse_template(s@) is None,
        },
{
    let i: usize = skip_ws(s, 0);
    if !(i < s.len() && s[i] == '[') {
        return None;
    }
    let j: usize = skip_ws(s, i + 1);
    if j < s.len() && s[j] == ']' {
        let e: usize = skip_ws(s, j + 1);
        if e == s.len() {
            let out: Vec<Message> = Vec::new();
            proof {
                assert(msgs_view(out@) =~= Seq::<MessageV>::empty());
            }
            Some(out)
        } else {
            None
        }
    } else {
        let empty_acc: Vec<Message> = Vec::new();
        proof {
            assert(msgs_view(empty_acc@) =~= Seq::<MessageV>::empty());
        }
        match parse_elements_at(s, j, empty_acc) {
            None => None,
            Some((v, end)) => {
                let e: usize = skip_ws(s, end);
                if e == s.len() {
                    Some(v)
                } else {
                    None
                }
            },
        }
    }
}

} // verus!
