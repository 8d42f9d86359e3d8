//! The wire codec: one envelope per line, as a JSON object.
//!
//! The decoder accepts the JSON grammar for the envelope shape:
//! insignificant whitespace, object members in any order, and JSON string
//! escapes (`\"`, `\\`, `\/`, `\b`, `\f`, `\n`, `\r`, `\t`, and `\uXXXX`
//! for scalar values; surrogate pairs are not paired).  A unit is a decode
//! failure exactly when it is not such an object: unknown or duplicate
//! members, a missing `type`, or fields not matching the tagged variant.
//!
//! The encoder emits one canonical rendering: no whitespace, members in a
//! fixed order, and strings escaped minimally:
//!
//! ```text
//! {"src":"S","dest":"D","body":{"msg_id":N,"in_reply_to":M,"type":"TAG", ...fields}}
//! ```
//!
//! `msg_id` and `in_reply_to` are omitted when unset.  Decoding what the
//! encoder produced yields the original envelope, every observable field
//! intact (see [`lemma_encode_decode`]).

use vstd::prelude::*;
use crate::message::{
    wire_char, wire_str, Init, InitView, Message, MessageView, Body, BodyView, Payload, PayloadView,
};
use crate::numbers::{
    spec_dec, sp_parse_usize, is_dec_digit, lemma_parse_dec_round_trip, parse_usize_at, push_dec,
};

verus! {

// ---------------------------------------------------------------------------
// Literal fragments of the canonical form, and the member names.
// ---------------------------------------------------------------------------

pub open spec fn q() -> Seq<char> {
    seq!['"']
}

pub open spec fn l_open() -> Seq<char> {
    seq!['{', '"', 's', 'r', 'c', '"', ':', '"']
}

pub open spec fn l_dest() -> Seq<char> {
    seq![',', '"', 'd', 'e', 's', 't', '"', ':', '"']
}

pub open spec fn l_body() -> Seq<char> {
    seq![',', '"', 'b', 'o', 'd', 'y', '"', ':', '{']
}

pub open spec fn l_msg_id() -> Seq<char> {
    seq!['"', 'm', 's', 'g', '_', 'i', 'd', '"', ':']
}

pub open spec fn l_irt() -> Seq<char> {
    seq!['"', 'i', 'n', '_', 'r', 'e', 'p', 'l', 'y', '_', 't', 'o', '"', ':']
}

pub open spec fn l_type() -> Seq<char> {
    seq!['"', 't', 'y', 'p', 'e', '"', ':', '"']
}

pub open spec fn l_node_id() -> Seq<char> {
    seq![',', '"', 'n', 'o', 'd', 'e', '_', 'i', 'd', '"', ':', '"']
}

pub open spec fn l_node_ids() -> Seq<char> {
    seq![',', '"', 'n', 'o', 'd', 'e', '_', 'i', 'd', 's', '"', ':', '[']
}

pub open spec fn l_echo() -> Seq<char> {
    seq![',', '"', 'e', 'c', 'h', 'o', '"', ':', '"']
}

pub open spec fn l_id() -> Seq<char> {
    seq![',', '"', 'i', 'd', '"', ':', '"']
}

pub open spec fn l_close() -> Seq<char> {
    seq!['}', '}']
}

pub open spec fn n_src() -> Seq<char> {
    seq!['s', 'r', 'c']
}

pub open spec fn n_dest() -> Seq<char> {
    seq!['d', 'e', 's', 't']
}

pub open spec fn n_body() -> Seq<char> {
    seq!['b', 'o', 'd', 'y']
}

pub open spec fn n_msg_id() -> Seq<char> {
    seq!['m', 's', 'g', '_', 'i', 'd']
}

pub open spec fn n_irt() -> Seq<char> {
    seq!['i', 'n', '_', 'r', 'e', 'p', 'l', 'y', '_', 't', 'o']
}

pub open spec fn n_type() -> Seq<char> {
    seq!['t', 'y', 'p', 'e']
}

pub open spec fn n_node_id() -> Seq<char> {
    seq!['n', 'o', 'd', 'e', '_', 'i', 'd']
}

pub open spec fn n_node_ids() -> Seq<char> {
    seq!['n', 'o', 'd', 'e', '_', 'i', 'd', 's']
}

pub open spec fn n_echo() -> Seq<char> {
    seq!['e', 'c', 'h', 'o']
}

pub open spec fn n_id() -> Seq<char> {
    seq!['i', 'd']
}

pub open spec fn t_init() -> Seq<char> {
    seq!['i', 'n', 'i', 't']
}

pub open spec fn t_init_ok() -> Seq<char> {
    seq!['i', 'n', 'i', 't', '_', 'o', 'k']
}

pub open spec fn t_echo() -> Seq<char> {
    seq!['e', 'c', 'h', 'o']
}

pub open spec fn t_echo_ok() -> Seq<char> {
    seq!['e', 'c', 'h', 'o', '_', 'o', 'k']
}

pub open spec fn t_generate() -> Seq<char> {
    seq!['g', 'e', 'n', 'e', 'r', 'a', 't', 'e']
}

pub open spec fn t_generate_ok() -> Seq<char> {
    seq!['g', 'e', 'n', 'e', 'r', 'a', 't', 'e', '_', 'o', 'k']
}

// ---------------------------------------------------------------------------
// String escaping.
// ---------------------------------------------------------------------------

/// JSON insignificant whitespace.
pub open spec fn is_ws_char(c: char) -> bool {
    c == ' ' || c == '\t' || c == '\n' || c == '\r'
}

/// A hexadecimal digit, either case.
pub open spec fn is_hex_digit(c: char) -> bool {
    (0x30 <= c as u32 && c as u32 <= 0x39)
        || (0x61 <= c as u32 && c as u32 <= 0x66)
        || (0x41 <= c as u32 && c as u32 <= 0x46)
}

/// The value of a hexadecimal digit.
pub open spec fn hex_val(c: char) -> u32 {
    if c as u32 <= 0x39 {
        (c as u32 - 0x30) as u32
    } else if c as u32 >= 0x61 {
        (c as u32 - 0x57) as u32
    } else {
        (c as u32 - 0x37) as u32
    }
}

/// The lowercase hexadecimal digit for `n < 16`.
pub open spec fn hex_digit(n: u32) -> char {
    if n == 0 { '0' } else if n == 1 { '1' } else if n == 2 { '2' } else if n == 3 { '3' }
    else if n == 4 { '4' } else if n == 5 { '5' } else if n == 6 { '6' } else if n == 7 { '7' }
    else if n == 8 { '8' } else if n == 9 { '9' } else if n == 10 { 'a' } else if n == 11 { 'b' }
    else if n == 12 { 'c' } else if n == 13 { 'd' } else if n == 14 { 'e' } else { 'f' }
}

/// A Unicode scalar value: a code point that is a `char`.
pub open spec fn is_scalar_code(v: u32) -> bool {
    v < 0xD800 || (0xE000 <= v && v <= 0x10FFFF)
}

/// The code point of a character.
pub open spec fn code_of(c: char) -> u32 {
    c as u32
}

/// The character with the given code point.
pub open spec fn char_of_code(v: u32) -> char {
    choose|c: char| code_of(c) == v
}

/// The canonical escape of one character: `\"` and `\\`, `\u00XX` for the
/// control range, and the character itself otherwise.
pub open spec fn esc_char(c: char) -> Seq<char> {
    if c == '"' {
        seq!['\\', '"']
    } else if c == '\\' {
        seq!['\\', '\\']
    } else if (c as u32) < 0x20 {
        seq!['\\', 'u', '0', '0', hex_digit((c as u32) / 16), hex_digit((c as u32) % 16)]
    } else {
        seq![c]
    }
}

/// The canonical escape of a string.
pub open spec fn esc(s: Seq<char>) -> Seq<char>
    decreases s.len(),
{
    if s.len() == 0 {
        Seq::empty()
    } else {
        esc_char(s[0]) + esc(s.skip(1))
    }
}

/// The character a short escape stands for, if the letter is one.
pub open spec fn unescape_short(c: char) -> Option<char> {
    if c == '"' { Some('"') } else if c == '\\' { Some('\\') } else if c == '/' { Some('/') }
    else if c == 'b' { Some('\u{8}') } else if c == 'f' { Some('\u{c}') }
    else if c == 'n' { Some('\n') } else if c == 'r' { Some('\r') } else if c == 't' { Some('\t') }
    else { None }
}

// ---------------------------------------------------------------------------
// The decoder, as a specification.
// ---------------------------------------------------------------------------

/// Skip insignificant whitespace.
pub open spec fn sp_ws(s: Seq<char>) -> Seq<char>
    decreases s.len(),
{
    if s.len() > 0 && is_ws_char(s[0]) {
        sp_ws(s.skip(1))
    } else {
        s
    }
}

/// Consume a JSON string body whose opening quote is already consumed.
/// Yields the unescaped content and what follows the closing quote.
pub open spec fn sp_parse_jstr(s: Seq<char>) -> Option<(Seq<char>, Seq<char>)>
    decreases s.len(),
{
    if s.len() == 0 {
        None
    } else if s[0] == '"' {
        Some((Seq::empty(), s.skip(1)))
    } else if s[0] == '\\' {
        if s.len() >= 2 && s[1] == 'u' {
            if s.len() >= 6 && is_hex_digit(s[2]) && is_hex_digit(s[3]) && is_hex_digit(s[4])
                && is_hex_digit(s[5]) {
                let v = (((hex_val(s[2]) * 16 + hex_val(s[3])) * 16 + hex_val(s[4])) * 16
                    + hex_val(s[5])) as u32;
                if is_scalar_code(v) {
                    match sp_parse_jstr(s.skip(6)) {
                        Some((c, r)) => Some((seq![char_of_code(v)] + c, r)),
                        None => None,
                    }
                } else {
                    None
                }
            } else {
                None
            }
        } else if s.len() >= 2 {
            match unescape_short(s[1]) {
                Some(u) => match sp_parse_jstr(s.skip(2)) {
                    Some((c, r)) => Some((seq![u] + c, r)),
                    None => None,
                },
                None => None,
            }
        } else {
            None
        }
    } else if (s[0] as u32) >= 0x20 {
        match sp_parse_jstr(s.skip(1)) {
            Some((c, r)) => Some((seq![s[0]] + c, r)),
            None => None,
        }
    } else {
        None
    }
}

/// Consume a quoted string value: the opening quote, then the body.
pub open spec fn sp_parse_str_value(s: Seq<char>) -> Option<(Seq<char>, Seq<char>)> {
    if s.len() > 0 && s[0] == '"' {
        sp_parse_jstr(s.skip(1))
    } else {
        None
    }
}

/// Consume a string list after its opening bracket, including the closing
/// bracket, with whitespace allowed around elements and commas.
pub open spec fn sp_parse_jstr_list(s: Seq<char>) -> Option<(Seq<Seq<char>>, Seq<char>)>
    decreases s.len(),
{
    let s0 = sp_ws(s);
    if s0.len() == 0 {
        None
    } else if s0[0] == ']' {
        Some((Seq::empty(), s0.skip(1)))
    } else if s0[0] == '"' {
        match sp_parse_jstr(s0.skip(1)) {
            Some((e, r)) => {
                let r0 = sp_ws(r);
                if r0.len() < s.len() && r0.len() > 0 {
                    if r0[0] == ',' {
                        let r1 = sp_ws(r0.skip(1));
                        if r1.len() > 0 && r1[0] == '"' {
                            match sp_parse_jstr_list(r0.skip(1)) {
                                Some((es, r2)) => Some((seq![e] + es, r2)),
                                None => None,
                            }
                        } else {
                            None
                        }
                    } else if r0[0] == ']' {
                        Some((seq![e], r0.skip(1)))
                    } else {
                        None
                    }
                } else {
                    None
                }
            },
            None => None,
        }
    } else {
        None
    }
}

/// The body members gathered so far: `None` stands for "not seen".
#[verifier::ext_equal]
pub ghost struct BodyAcc {
    pub id: Option<usize>,
    pub irt: Option<usize>,
    pub tag: Option<Seq<char>>,
    pub node_id: Option<Seq<char>>,
    pub node_ids: Option<Seq<Seq<char>>>,
    pub echo: Option<Seq<char>>,
    pub gid: Option<Seq<char>>,
}

/// No body member seen yet.
pub open spec fn body_acc_empty() -> BodyAcc {
    BodyAcc { id: None, irt: None, tag: None, node_id: None, node_ids: None, echo: None, gid: None }
}

/// Consume one body member's value, by its (unescaped) name.  A name not of
/// the shape, or a member seen twice, is a failure.
pub open spec fn sp_body_member_value(name: Seq<char>, s: Seq<char>, acc: BodyAcc) -> Option<
    (BodyAcc, Seq<char>),
> {
    if name == n_msg_id() {
        if acc.id is Some {
            None
        } else {
            match sp_parse_usize(s) {
                Some((n, r)) => Some((BodyAcc { id: Some(n), ..acc }, r)),
                None => None,
            }
        }
    } else if name == n_irt() {
        if acc.irt is Some {
            None
        } else {
            match sp_parse_usize(s) {
                Some((n, r)) => Some((BodyAcc { irt: Some(n), ..acc }, r)),
                None => None,
            }
        }
    } else if name == n_type() {
        if acc.tag is Some {
            None
        } else {
            match sp_parse_str_value(s) {
                Some((t, r)) => Some((BodyAcc { tag: Some(t), ..acc }, r)),
                None => None,
            }
        }
    } else if name == n_node_id() {
        if acc.node_id is Some {
            None
        } else {
            match sp_parse_str_value(s) {
                Some((t, r)) => Some((BodyAcc { node_id: Some(t), ..acc }, r)),
                None => None,
            }
        }
    } else if name == n_node_ids() {
        if acc.node_ids is Some {
            None
        } else if s.len() > 0 && s[0] == '[' {
            match sp_parse_jstr_list(s.skip(1)) {
                Some((es, r)) => Some((BodyAcc { node_ids: Some(es), ..acc }, r)),
                None => None,
            }
        } else {
            None
        }
    } else if name == n_echo() {
        if acc.echo is Some {
            None
        } else {
            match sp_parse_str_value(s) {
                Some((t, r)) => Some((BodyAcc { echo: Some(t), ..acc }, r)),
                None => None,
            }
        }
    } else if name == n_id() {
        if acc.gid is Some {
            None
        } else {
            match sp_parse_str_value(s) {
                Some((t, r)) => Some((BodyAcc { gid: Some(t), ..acc }, r)),
                None => None,
            }
        }
    } else {
        None
    }
}

/// Consume body members up to and including the closing brace: either `}`
/// at once, or `"name" : value` members separated by commas.
pub open spec fn sp_parse_body_members(s: Seq<char>, acc: BodyAcc) -> Option<(BodyAcc, Seq<char>)>
    decreases s.len(),
{
    let s0 = sp_ws(s);
    if s0.len() == 0 {
        None
    } else if s0[0] == '}' {
        Some((acc, s0.skip(1)))
    } else if s0[0] == '"' {
        match sp_parse_jstr(s0.skip(1)) {
            None => None,
            Some((name, r1)) => {
                let r2 = sp_ws(r1);
                if r2.len() > 0 && r2[0] == ':' {
                    match sp_body_member_value(name, sp_ws(r2.skip(1)), acc) {
                        None => None,
                        Some((acc2, r4)) => {
                            let r5 = sp_ws(r4);
                            if r5.len() < s.len() && r5.len() > 0 {
                                if r5[0] == ',' {
                                    let r6 = sp_ws(r5.skip(1));
                                    if r6.len() > 0 && r6[0] == '"' {
                                        sp_parse_body_members(r5.skip(1), acc2)
                                    } else {
                                        None
                                    }
                                } else if r5[0] == '}' {
                                    Some((acc2, r5.skip(1)))
                                } else {
                                    None
                                }
                            } else {
                                None
                            }
                        },
                    }
                } else {
                    None
                }
            },
        }
    } else {
        None
    }
}

/// Interpret gathered body members: the tag picks the variant, whose fields
/// must be present exactly.
pub open spec fn sp_body_from_acc(acc: BodyAcc) -> Option<BodyView> {
    match acc.tag {
        None => None,
        Some(t) => {
            if t == t_init() {
                if acc.node_id is Some && acc.node_ids is Some && acc.echo is None
                    && acc.gid is None {
                    Some(BodyView {
                        id: acc.id,
                        in_reply_to: acc.irt,
                        payload: PayloadView::Init(InitView {
                            node_id: acc.node_id->Some_0,
                            node_ids: acc.node_ids->Some_0,
                        }),
                    })
                } else {
                    None
                }
            } else if t == t_init_ok() {
                if acc.node_id is None && acc.node_ids is None && acc.echo is None
                    && acc.gid is None {
                    Some(BodyView { id: acc.id, in_reply_to: acc.irt, payload: PayloadView::InitOk })
                } else {
                    None
                }
            } else if t == t_echo() {
                if acc.node_id is None && acc.node_ids is None && acc.echo is Some
                    && acc.gid is None {
                    Some(BodyView {
                        id: acc.id,
                        in_reply_to: acc.irt,
                        payload: PayloadView::Echo(acc.echo->Some_0),
                    })
                } else {
                    None
                }
            } else if t == t_echo_ok() {
                if acc.node_id is None && acc.node_ids is None && acc.echo is Some
                    && acc.gid is None {
                    Some(BodyView {
                        id: acc.id,
                        in_reply_to: acc.irt,
                        payload: PayloadView::EchoOk(acc.echo->Some_0),
                    })
                } else {
                    None
                }
            } else if t == t_generate() {
                if acc.node_id is None && acc.node_ids is None && acc.echo is None
                    && acc.gid is None {
                    Some(BodyView {
                        id: acc.id,
                        in_reply_to: acc.irt,
                        payload: PayloadView::Generate,
                    })
                } else {
                    None
                }
            } else if t == t_generate_ok() {
                if acc.node_id is None && acc.node_ids is None && acc.echo is None
                    && acc.gid is Some {
                    Some(BodyView {
                        id: acc.id,
                        in_reply_to: acc.irt,
                        payload: PayloadView::GenerateOk(acc.gid->Some_0),
                    })
                } else {
                    None
                }
            } else {
                None
            }
        },
    }
}

/// The envelope members gathered so far.
#[verifier::ext_equal]
pub ghost struct EnvAcc {
    pub src: Option<Seq<char>>,
    pub dst: Option<Seq<char>>,
    pub body: Option<BodyView>,
}

/// No envelope member seen yet.
pub open spec fn env_acc_empty() -> EnvAcc {
    EnvAcc { src: None, dst: None, body: None }
}

/// Consume one envelope member's value, by its (unescaped) name.
pub open spec fn sp_env_member_value(name: Seq<char>, s: Seq<char>, acc: EnvAcc) -> Option<
    (EnvAcc, Seq<char>),
> {
    if name == n_src() {
        if acc.src is Some {
            None
        } else {
            match sp_parse_str_value(s) {
                Some((t, r)) => Some((EnvAcc { src: Some(t), ..acc }, r)),
                None => None,
            }
        }
    } else if name == n_dest() {
        if acc.dst is Some {
            None
        } else {
            match sp_parse_str_value(s) {
                Some((t, r)) => Some((EnvAcc { dst: Some(t), ..acc }, r)),
                None => None,
            }
        }
    } else if name == n_body() {
        if acc.body is Some {
            None
        } else if s.len() > 0 && s[0] == '{' {
            match sp_parse_body_members(s.skip(1), body_acc_empty()) {
                Some((bacc, r)) => match sp_body_from_acc(bacc) {
                    Some(b) => Some((EnvAcc { body: Some(b), ..acc }, r)),
                    None => None,
                },
                None => None,
            }
        } else {
            None
        }
    } else {
        None
    }
}

/// Consume envelope members up to and including the closing brace.
pub open spec fn sp_parse_env_members(s: Seq<char>, acc: EnvAcc) -> Option<(EnvAcc, Seq<char>)>
    decreases s.len(),
{
    let s0 = sp_ws(s);
    if s0.len() == 0 {
        None
    } else if s0[0] == '}' {
        Some((acc, s0.skip(1)))
    } else if s0[0] == '"' {
        match sp_parse_jstr(s0.skip(1)) {
            None => None,
            Some((name, r1)) => {
                let r2 = sp_ws(r1);
                if r2.len() > 0 && r2[0] == ':' {
                    match sp_env_member_value(name, sp_ws(r2.skip(1)), acc) {
                        None => None,
                        Some((acc2, r4)) => {
                            let r5 = sp_ws(r4);
                            if r5.len() < s.len() && r5.len() > 0 {
                                if r5[0] == ',' {
                                    let r6 = sp_ws(r5.skip(1));
                                    if r6.len() > 0 && r6[0] == '"' {
                                        sp_parse_env_members(r5.skip(1), acc2)
                                    } else {
                                        None
                                    }
                                } else if r5[0] == '}' {
                                    Some((acc2, r5.skip(1)))
                                } else {
                                    None
                                }
                            } else {
                                None
                            }
                        },
                    }
                } else {
                    None
                }
            },
        }
    } else {
        None
    }
}

/// Decode one full line: a JSON object of the envelope shape, with nothing
/// but whitespace around it.
pub open spec fn sp_decode(line: Seq<char>) -> Option<MessageView> {
    let s0 = sp_ws(line);
    if s0.len() > 0 && s0[0] == '{' {
        match sp_parse_env_members(s0.skip(1), env_acc_empty()) {
            Some((acc, r)) => {
                if sp_ws(r).len() == 0 {
                    match (acc.src, acc.dst, acc.body) {
                        (Some(src), Some(dst), Some(b)) => Some(MessageView { src, dst, body: b }),
                        _ => None,
                    }
                } else {
                    None
                }
            },
            None => None,
        }
    } else {
        None
    }
}

// ---------------------------------------------------------------------------
// The encoder, as a specification.
// ---------------------------------------------------------------------------

/// A string element list as it stands inside `[`...`]`, including the
/// closing bracket: `]`, `"a"]`, or `"a","b"]`, each element escaped.
pub open spec fn enc_str_list(xs: Seq<Seq<char>>) -> Seq<char>
    decreases xs.len(),
{
    if xs.len() == 0 {
        seq![']']
    } else if xs.len() == 1 {
        q() + esc(xs[0]) + q() + seq![']']
    } else {
        q() + esc(xs[0]) + q() + seq![','] + enc_str_list(xs.skip(1))
    }
}

/// An optional numeric body field with its trailing comma, or nothing.
pub open spec fn enc_opt_num(key: Seq<char>, n: Option<usize>) -> Seq<char> {
    match n {
        Some(k) => key + spec_dec(k as nat) + seq![','],
        None => Seq::empty(),
    }
}

/// The payload as it stands after the opening quote of the `type` field:
/// the tag, its closing quote, and the variant's fields.
pub open spec fn enc_payload(p: PayloadView) -> Seq<char> {
    match p {
        PayloadView::Init(i) =>
            t_init() + q() + l_node_id() + esc(i.node_id) + q() + l_node_ids()
                + enc_str_list(i.node_ids),
        PayloadView::InitOk => t_init_ok() + q(),
        PayloadView::Echo(e) => t_echo() + q() + l_echo() + esc(e) + q(),
        PayloadView::EchoOk(e) => t_echo_ok() + q() + l_echo() + esc(e) + q(),
        PayloadView::Generate => t_generate() + q(),
        PayloadView::GenerateOk(g) => t_generate_ok() + q() + l_id() + esc(g) + q(),
    }
}

/// The canonical wire form of an envelope, without the line terminator.
pub open spec fn spec_encode(m: MessageView) -> Seq<char> {
    l_open() + esc(m.src) + q() + l_dest() + esc(m.dst) + q() + l_body()
        + enc_opt_num(l_msg_id(), m.body.id)
        + enc_opt_num(l_irt(), m.body.in_reply_to)
        + l_type() + enc_payload(m.body.payload) + l_close()
}

// ---------------------------------------------------------------------------
// Round trip: the canonical form decodes to the envelope it encodes.
// ---------------------------------------------------------------------------

/// Hexadecimal digits invert their values.
pub proof fn lemma_hex_digit_inverse(n: u32)
    requires
        n < 16,
    ensures
        is_hex_digit(hex_digit(n)),
        hex_val(hex_digit(n)) == n,
{
}

/// Every character is the character of its own code point.
pub proof fn lemma_char_code_inverse(c: char)
    ensures
        char_of_code(c as u32) == c,
{
    let v = c as u32;
    assert(exists|x: char| #[trigger] code_of(x) == v) by {
        assert(code_of(c) == v);
    }
    let d = char_of_code(v);
    assert(code_of(d) == v);
}

/// Escaping leaves a wire-safe string unchanged.
pub proof fn lemma_esc_plain(s: Seq<char>)
    requires
        wire_str(s),
    ensures
        esc(s) == s,
    decreases s.len(),
{
    if s.len() == 0 {
        assert(esc(s) =~= s);
    } else {
        assert(wire_char(s[0]));
        assert(esc_char(s[0]) == seq![s[0]]);
        assert(wire_str(s.skip(1))) by {
            assert(forall|i: int| 0 <= i < s.skip(1).len() ==> #[trigger] s.skip(1)[i] == s[i + 1]);
        }
        lemma_esc_plain(s.skip(1));
        assert(esc(s) =~= s);
    }
}

/// Scanning an escaped string body up to its closing quote recovers the
/// content.
pub proof fn lemma_parse_jstr_esc(content: Seq<char>, rest: Seq<char>)
    ensures
        sp_parse_jstr(esc(content) + q() + rest) == Some((content, rest)),
    decreases content.len(),
{
    let s = esc(content) + q() + rest;
    if content.len() == 0 {
        assert(esc(content) =~= Seq::<char>::empty());
        assert(s =~= q() + rest);
        assert(s[0] == '"');
        assert(s.skip(1) =~= rest);
    } else {
        let c = content[0];
        assert(esc(content) == esc_char(c) + esc(content.skip(1)));
        lemma_parse_jstr_esc(content.skip(1), rest);
        let s1 = esc(content.skip(1)) + q() + rest;
        assert(seq![c] + content.skip(1) =~= content);
        if c == '"' {
            assert(s =~= seq!['\\', '"'] + s1);
            assert(s[0] == '\\' && s[1] == '"');
            assert(unescape_short('"') == Some('"'));
            assert(s.skip(2) =~= s1);
        } else if c == '\\' {
            assert(s =~= seq!['\\', '\\'] + s1);
            assert(s[0] == '\\' && s[1] == '\\');
            assert(unescape_short('\\') == Some('\\'));
            assert(s.skip(2) =~= s1);
        } else if (c as u32) < 0x20 {
            let v = c as u32;
            assert(s =~= seq!['\\', 'u', '0', '0', hex_digit(v / 16), hex_digit(v % 16)] + s1);
            lemma_hex_digit_inverse(v / 16);
            lemma_hex_digit_inverse(v % 16);
            assert(is_hex_digit('0') && hex_val('0') == 0);
            assert(((hex_val(s[2]) * 16 + hex_val(s[3])) * 16 + hex_val(s[4])) * 16 + hex_val(s[5])
                == v);
            assert(is_scalar_code(v));
            lemma_char_code_inverse(c);
            assert(s.skip(6) =~= s1);
        } else {
            assert(s =~= seq![c] + s1);
            assert(s[0] == c && c != '"' && c != '\\' && (c as u32) >= 0x20);
            assert(s.skip(1) =~= s1);
        }
    }
}

/// A successful string scan consumes at least the closing quote.
pub proof fn lemma_parse_jstr_shape(s: Seq<char>)
    requires
        sp_parse_jstr(s) is Some,
    ensures
        sp_parse_jstr(s)->Some_0.1.len() < s.len(),
    decreases s.len(),
{
    if s[0] == '"' {
    } else if s[0] == '\\' {
        if s.len() >= 2 && s[1] == 'u' {
            lemma_parse_jstr_shape(s.skip(6));
        } else {
            lemma_parse_jstr_shape(s.skip(2));
        }
    } else {
        lemma_parse_jstr_shape(s.skip(1));
    }
}

/// The member names and tags are wire-safe strings.
pub proof fn lemma_names_wire()
    ensures
        wire_str(n_src()),
        wire_str(n_dest()),
        wire_str(n_body()),
        wire_str(n_msg_id()),
        wire_str(n_irt()),
        wire_str(n_type()),
        wire_str(n_node_id()),
        wire_str(n_node_ids()),
        wire_str(n_echo()),
        wire_str(n_id()),
        wire_str(t_init()),
        wire_str(t_init_ok()),
        wire_str(t_echo()),
        wire_str(t_echo_ok()),
        wire_str(t_generate()),
        wire_str(t_generate_ok()),
{
    assert forall|k: int| 0 <= k < n_src().len() implies wire_char(#[trigger] n_src()[k]) by {}
    assert forall|k: int| 0 <= k < n_dest().len() implies wire_char(#[trigger] n_dest()[k]) by {}
    assert forall|k: int| 0 <= k < n_body().len() implies wire_char(#[trigger] n_body()[k]) by {}
    assert forall|k: int| 0 <= k < n_msg_id().len() implies wire_char(#[trigger] n_msg_id()[k]) by {}
    assert forall|k: int| 0 <= k < n_irt().len() implies wire_char(#[trigger] n_irt()[k]) by {}
    assert forall|k: int| 0 <= k < n_type().len() implies wire_char(#[trigger] n_type()[k]) by {}
    assert forall|k: int| 0 <= k < n_node_id().len() implies wire_char(
        #[trigger] n_node_id()[k],
    ) by {}
    assert forall|k: int| 0 <= k < n_node_ids().len() implies wire_char(
        #[trigger] n_node_ids()[k],
    ) by {}
    assert forall|k: int| 0 <= k < n_echo().len() implies wire_char(#[trigger] n_echo()[k]) by {}
    assert forall|k: int| 0 <= k < n_id().len() implies wire_char(#[trigger] n_id()[k]) by {}
    assert forall|k: int| 0 <= k < t_init_ok().len() implies wire_char(
        #[trigger] t_init_ok()[k],
    ) by {}
    assert forall|k: int| 0 <= k < t_echo_ok().len() implies wire_char(
        #[trigger] t_echo_ok()[k],
    ) by {}
    assert forall|k: int| 0 <= k < t_generate().len() implies wire_char(
        #[trigger] t_generate()[k],
    ) by {}
    assert forall|k: int| 0 <= k < t_generate_ok().len() implies wire_char(
        #[trigger] t_generate_ok()[k],
    ) by {}
}

/// Scanning a wire-safe literal followed by a closing quote recovers it.
pub proof fn lemma_jstr_name(name: Seq<char>, rest: Seq<char>)
    requires
        wire_str(name),
    ensures
        sp_parse_jstr(name + q() + rest) == Some((name, rest)),
{
    lemma_esc_plain(name);
    lemma_parse_jstr_esc(name, rest);
}

/// A nonempty encoded list begins with a quote.
pub proof fn lemma_enc_list_head(xs: Seq<Seq<char>>)
    requires
        xs.len() >= 1,
    ensures
        enc_str_list(xs).len() >= 1,
        enc_str_list(xs)[0] == '"',
{
    if xs.len() == 1 {
        assert(enc_str_list(xs) == q() + esc(xs[0]) + q() + seq![']']);
    } else {
        assert(enc_str_list(xs) == q() + esc(xs[0]) + q() + seq![','] + enc_str_list(xs.skip(1)));
    }
}

/// Parsing an encoded list recovers the elements.
pub proof fn lemma_rt_list(xs: Seq<Seq<char>>, rest: Seq<char>)
    ensures
        sp_parse_jstr_list(enc_str_list(xs) + rest) == Some((xs, rest)),
    decreases xs.len(),
{
    let s = enc_str_list(xs) + rest;
    if xs.len() == 0 {
        assert(s =~= seq![']'] + rest);
        assert(s[0] == ']');
        assert(sp_ws(s) == s);
        assert(s.skip(1) =~= rest);
        assert(Seq::<Seq<char>>::empty() =~= xs);
    } else if xs.len() == 1 {
        assert(enc_str_list(xs) == q() + esc(xs[0]) + q() + seq![']']);
        assert(s =~= q() + (esc(xs[0]) + q() + (seq![']'] + rest)));
        assert(s[0] == '"');
        assert(sp_ws(s) == s);
        assert(s.skip(1) =~= esc(xs[0]) + q() + (seq![']'] + rest));
        lemma_parse_jstr_esc(xs[0], seq![']'] + rest);
        let r = seq![']'] + rest;
        assert(r[0] == ']');
        assert(sp_ws(r) == r);
        assert(r.len() < s.len());
        assert(r.skip(1) =~= rest);
        assert(seq![xs[0]] =~= xs);
    } else {
        assert(enc_str_list(xs) == q() + esc(xs[0]) + q() + seq![','] + enc_str_list(xs.skip(1)));
        let tail = seq![','] + (enc_str_list(xs.skip(1)) + rest);
        assert(s =~= q() + (esc(xs[0]) + q() + tail));
        assert(s[0] == '"');
        assert(sp_ws(s) == s);
        assert(s.skip(1) =~= esc(xs[0]) + q() + tail);
        lemma_parse_jstr_esc(xs[0], tail);
        assert(tail[0] == ',');
        assert(sp_ws(tail) == tail);
        assert(tail.len() < s.len());
        lemma_enc_list_head(xs.skip(1));
        assert(tail.skip(1) =~= enc_str_list(xs.skip(1)) + rest);
        assert((enc_str_list(xs.skip(1)) + rest)[0] == '"');
        assert(sp_ws(tail.skip(1)) == tail.skip(1));
        lemma_rt_list(xs.skip(1), rest);
        assert(seq![xs[0]] + xs.skip(1) =~= xs);
    }
}

/// The tag string of a payload.
pub open spec fn tag_of(p: PayloadView) -> Seq<char> {
    match p {
        PayloadView::Init(_) => t_init(),
        PayloadView::InitOk => t_init_ok(),
        PayloadView::Echo(_) => t_echo(),
        PayloadView::EchoOk(_) => t_echo_ok(),
        PayloadView::Generate => t_generate(),
        PayloadView::GenerateOk(_) => t_generate_ok(),
    }
}

/// The accumulator after the `type` member and the payload's own members.
pub open spec fn acc_with_payload(acc: BodyAcc, p: PayloadView) -> BodyAcc {
    match p {
        PayloadView::Init(i) => BodyAcc {
            tag: Some(t_init()),
            node_id: Some(i.node_id),
            node_ids: Some(i.node_ids),
            ..acc
        },
        PayloadView::InitOk => BodyAcc { tag: Some(t_init_ok()), ..acc },
        PayloadView::Echo(e) => BodyAcc { tag: Some(t_echo()), echo: Some(e), ..acc },
        PayloadView::EchoOk(e) => BodyAcc { tag: Some(t_echo_ok()), echo: Some(e), ..acc },
        PayloadView::Generate => BodyAcc { tag: Some(t_generate()), ..acc },
        PayloadView::GenerateOk(g) => BodyAcc { tag: Some(t_generate_ok()), gid: Some(g), ..acc },
    }
}

/// Walking the `type` member: the loop consumes it and continues on what
/// follows, which must close the object or lead into another member.
#[verifier::rlimit(100)]
proof fn lemma_rt_type_member(tag: Seq<char>, fields: Seq<char>, acc: BodyAcc)
    requires
        acc.tag is None,
        wire_str(tag),
        fields.len() > 0,
        fields[0] == '}' || (fields[0] == ',' && fields.skip(1).len() > 0
            && fields.skip(1)[0] == '"'),
    ensures
        ({
            let acc2 = BodyAcc { tag: Some(tag), ..acc };
            sp_parse_body_members(l_type() + (tag + q() + fields), acc) == (
                if fields[0] == '}' {
                    Some((acc2, fields.skip(1)))
                } else {
                    sp_parse_body_members(fields.skip(1), acc2)
                }
            )
        }),
{
    lemma_names_wire();
    let s = l_type() + (tag + q() + fields);
    assert(s[0] == '"');
    assert(sp_ws(s) == s);
    assert(s.skip(1) =~= n_type() + q() + (seq![':'] + (q() + (tag + q() + fields))));
    lemma_jstr_name(n_type(), seq![':'] + (q() + (tag + q() + fields)));
    let r1 = seq![':'] + (q() + (tag + q() + fields));
    assert(sp_ws(r1) == r1);
    assert(r1[0] == ':');
    let r3 = q() + (tag + q() + fields);
    assert(r1.skip(1) =~= r3);
    assert(r3[0] == '"');
    assert(sp_ws(r3) == r3);
    assert(r3.skip(1) =~= tag + q() + fields);
    lemma_jstr_name(tag, fields);
    assert(n_type() != n_msg_id() && n_type() != n_irt());
    let acc2 = BodyAcc { tag: Some(tag), ..acc };
    assert(sp_body_member_value(n_type(), r3, acc) == Some((acc2, fields)));
    assert(sp_ws(fields) == fields);
    assert(fields.len() < s.len());
    if fields[0] == '}' {
    } else {
        assert(sp_ws(fields.skip(1)) == fields.skip(1));
    }
}

/// Walking the `type` member and the payload's members of the canonical
/// form fills the accumulator with the payload.
#[verifier::rlimit(100)]
pub proof fn lemma_rt_tail(p: PayloadView, acc: BodyAcc, rest: Seq<char>)
    requires
        acc.tag is None,
        acc.node_id is None,
        acc.node_ids is None,
        acc.echo is None,
        acc.gid is None,
    ensures
        sp_parse_body_members(l_type() + enc_payload(p) + seq!['}'] + rest, acc)
            == Some((acc_with_payload(acc, p), rest)),
{
    lemma_names_wire();
    let s = l_type() + enc_payload(p) + seq!['}'] + rest;
    let tag = tag_of(p);
    let acc2 = BodyAcc { tag: Some(tag), ..acc };
    match p {
        PayloadView::InitOk | PayloadView::Generate => {
            let fields = seq!['}'] + rest;
            assert(s =~= l_type() + (tag + q() + fields));
            lemma_rt_type_member(tag, fields, acc);
            assert(fields.skip(1) =~= rest);
            assert(acc2 =~= acc_with_payload(acc, p));
        },
        PayloadView::Echo(e) => {
            let fields = l_echo() + esc(e) + q() + seq!['}'] + rest;
            assert(s =~= l_type() + (tag + q() + fields));
            assert(fields[0] == ',');
            assert(fields.skip(1) =~= q() + n_echo() + q() + seq![':'] + q() + esc(e) + q()
                + seq!['}'] + rest);
            assert(fields.skip(1)[0] == '"');
            lemma_rt_type_member(tag, fields, acc);
            lemma_rt_one_str_member(n_echo(), e, acc2, rest);
            assert(BodyAcc { echo: Some(e), ..acc2 } =~= acc_with_payload(acc, p));
        },
        PayloadView::EchoOk(e) => {
            let fields = l_echo() + esc(e) + q() + seq!['}'] + rest;
            assert(s =~= l_type() + (tag + q() + fields));
            assert(fields[0] == ',');
            assert(fields.skip(1) =~= q() + n_echo() + q() + seq![':'] + q() + esc(e) + q()
                + seq!['}'] + rest);
            assert(fields.skip(1)[0] == '"');
            lemma_rt_type_member(tag, fields, acc);
            lemma_rt_one_str_member(n_echo(), e, acc2, rest);
            assert(BodyAcc { echo: Some(e), ..acc2 } =~= acc_with_payload(acc, p));
        },
        PayloadView::GenerateOk(g) => {
            let fields = l_id() + esc(g) + q() + seq!['}'] + rest;
            assert(s =~= l_type() + (tag + q() + fields));
            assert(fields[0] == ',');
            assert(fields.skip(1) =~= q() + n_id() + q() + seq![':'] + q() + esc(g) + q()
                + seq!['}'] + rest);
            assert(fields.skip(1)[0] == '"');
            lemma_rt_type_member(tag, fields, acc);
            lemma_rt_one_str_member(n_id(), g, acc2, rest);
            assert(BodyAcc { gid: Some(g), ..acc2 } =~= acc_with_payload(acc, p));
        },
        PayloadView::Init(i) => {
            let fields = l_node_id() + esc(i.node_id) + q() + l_node_ids()
                + enc_str_list(i.node_ids) + seq!['}'] + rest;
            assert(s =~= l_type() + (tag + q() + fields));
            assert(fields[0] == ',');
            assert(fields.skip(1) =~= q() + n_node_id() + q() + seq![':'] + q() + esc(i.node_id)
                + q() + (l_node_ids() + enc_str_list(i.node_ids) + seq!['}'] + rest));
            assert(fields.skip(1)[0] == '"');
            lemma_rt_type_member(tag, fields, acc);
            lemma_rt_init_members(i, acc2, rest);
            assert(BodyAcc { node_id: Some(i.node_id), node_ids: Some(i.node_ids), ..acc2 }
                =~= acc_with_payload(acc, p));
        },
    }
}

/// Walking one final string-valued member (`echo` or `id`) and the closing
/// brace, from the member's opening quote.
#[verifier::rlimit(100)]
proof fn lemma_rt_one_str_member(name: Seq<char>, content: Seq<char>, acc: BodyAcc, rest: Seq<char>)
    requires
        name == n_echo() || name == n_id(),
        name == n_echo() ==> acc.echo is None,
        name == n_id() ==> acc.gid is None,
    ensures
        sp_parse_body_members(
            q() + name + q() + seq![':'] + q() + esc(content) + q() + seq!['}'] + rest,
            acc,
        ) == Some((
            if name == n_echo() {
                BodyAcc { echo: Some(content), ..acc }
            } else {
                BodyAcc { gid: Some(content), ..acc }
            },
            rest,
        )),
{
    lemma_names_wire();
    let t = q() + name + q() + seq![':'] + q() + esc(content) + q() + seq!['}'] + rest;
    let after_name = seq![':'] + (q() + (esc(content) + q() + (seq!['}'] + rest)));
    assert(t[0] == '"');
    assert(sp_ws(t) == t);
    assert(t.skip(1) =~= name + q() + after_name);
    lemma_jstr_name(name, after_name);
    assert(sp_ws(after_name) == after_name && after_name[0] == ':');
    let r3 = q() + (esc(content) + q() + (seq!['}'] + rest));
    assert(after_name.skip(1) =~= r3);
    assert(sp_ws(r3) == r3 && r3[0] == '"');
    assert(r3.skip(1) =~= esc(content) + q() + (seq!['}'] + rest));
    lemma_parse_jstr_esc(content, seq!['}'] + rest);
    assert(name != n_msg_id() && name != n_irt() && name != n_type() && name != n_node_id()
        && name != n_node_ids());
    let acc2: Option<(BodyAcc, Seq<char>)> = sp_body_member_value(name, r3, acc);
    let accx: BodyAcc = if name == n_echo() {
        BodyAcc { echo: Some(content), ..acc }
    } else {
        BodyAcc { gid: Some(content), ..acc }
    };
    assert(acc2 == Some((accx, seq!['}'] + rest)));
    let r4 = seq!['}'] + rest;
    assert(sp_ws(r4) == r4 && r4[0] == '}');
    assert(r4.len() < t.len());
    assert(r4.skip(1) =~= rest);
}

/// Walking the `node_id` and `node_ids` members and the closing brace, from
/// the `node_id` member's opening quote.
#[verifier::rlimit(100)]
proof fn lemma_rt_init_members(i: InitView, acc: BodyAcc, rest: Seq<char>)
    requires
        acc.node_id is None,
        acc.node_ids is None,
    ensures
        sp_parse_body_members(
            q() + n_node_id() + q() + seq![':'] + q() + esc(i.node_id) + q()
                + (l_node_ids() + enc_str_list(i.node_ids) + seq!['}'] + rest),
            acc,
        ) == Some((BodyAcc { node_id: Some(i.node_id), node_ids: Some(i.node_ids), ..acc }, rest)),
{
    lemma_names_wire();
    let cont = l_node_ids() + enc_str_list(i.node_ids) + seq!['}'] + rest;
    let t = q() + n_node_id() + q() + seq![':'] + q() + esc(i.node_id) + q() + cont;
    let after_name = seq![':'] + (q() + (esc(i.node_id) + q() + cont));
    assert(t[0] == '"');
    assert(sp_ws(t) == t);
    assert(t.skip(1) =~= n_node_id() + q() + after_name);
    lemma_jstr_name(n_node_id(), after_name);
    assert(sp_ws(after_name) == after_name && after_name[0] == ':');
    let r3 = q() + (esc(i.node_id) + q() + cont);
    assert(after_name.skip(1) =~= r3);
    assert(sp_ws(r3) == r3 && r3[0] == '"');
    assert(r3.skip(1) =~= esc(i.node_id) + q() + cont);
    lemma_parse_jstr_esc(i.node_id, cont);
    assert(n_node_id() != n_msg_id() && n_node_id() != n_irt() && n_node_id() != n_type());
    let acc2 = BodyAcc { node_id: Some(i.node_id), ..acc };
    assert(sp_body_member_value(n_node_id(), r3, acc) == Some((acc2, cont)));
    // comma continuation into the node_ids member
    assert(sp_ws(cont) == cont && cont[0] == ',') by {
        assert(cont[0] == l_node_ids()[0]);
    }
    assert(cont.len() < t.len());
    let t2 = q() + n_node_ids() + q() + seq![':'] + (seq!['['] + (enc_str_list(i.node_ids)
        + (seq!['}'] + rest)));
    assert(cont.skip(1) =~= t2);
    assert(t2[0] == '"');
    assert(sp_ws(t2) == t2);
    // second member: node_ids
    let after_name2 = seq![':'] + (seq!['['] + (enc_str_list(i.node_ids) + (seq!['}'] + rest)));
    assert(t2.skip(1) =~= n_node_ids() + q() + after_name2);
    lemma_jstr_name(n_node_ids(), after_name2);
    assert(sp_ws(after_name2) == after_name2 && after_name2[0] == ':');
    let v2 = seq!['['] + (enc_str_list(i.node_ids) + (seq!['}'] + rest));
    assert(after_name2.skip(1) =~= v2);
    assert(sp_ws(v2) == v2 && v2[0] == '[');
    assert(v2.skip(1) =~= enc_str_list(i.node_ids) + (seq!['}'] + rest));
    lemma_rt_list(i.node_ids, seq!['}'] + rest);
    assert(n_node_ids() != n_msg_id() && n_node_ids() != n_irt() && n_node_ids() != n_type()
        && n_node_ids() != n_node_id());
    let acc3 = BodyAcc { node_ids: Some(i.node_ids), ..acc2 };
    assert(sp_body_member_value(n_node_ids(), v2, acc2) == Some((acc3, seq!['}'] + rest)));
    let r4 = seq!['}'] + rest;
    assert(sp_ws(r4) == r4 && r4[0] == '}');
    assert(r4.len() < t2.len());
    assert(r4.skip(1) =~= rest);
    assert(sp_parse_body_members(t2, acc2) == Some((acc3, rest)));
    assert(acc3 =~= BodyAcc { node_id: Some(i.node_id), node_ids: Some(i.node_ids), ..acc });
}

/// Digits and commas are not whitespace.
proof fn lemma_token_chars(c: char)
    ensures
        is_dec_digit(c) ==> !is_ws_char(c),
{
    if is_dec_digit(c) {
        if c == ' ' {
            assert(c as u32 == 0x20);
        }
        if c == '\t' {
            assert(c as u32 == 0x9);
        }
        if c == '\n' {
            assert(c as u32 == 0xA);
        }
        if c == '\r' {
            assert(c as u32 == 0xD);
        }
    }
}

/// Walking one numeric member (`msg_id` or `in_reply_to`) with its
/// trailing comma continues the member loop on what follows.
#[verifier::rlimit(100)]
proof fn lemma_rt_num_member(is_msgid: bool, k: usize, cont: Seq<char>, acc: BodyAcc)
    requires
        cont.len() > 0,
        cont[0] == '"',
        is_msgid ==> acc.id is None,
        !is_msgid ==> acc.irt is None,
    ensures
        sp_parse_body_members(
            (if is_msgid { l_msg_id() } else { l_irt() }) + spec_dec(k as nat) + seq![','] + cont,
            acc,
        ) == sp_parse_body_members(
            cont,
            if is_msgid { BodyAcc { id: Some(k), ..acc } } else { BodyAcc { irt: Some(k), ..acc } },
        ),
{
    lemma_names_wire();
    let key: Seq<char> = if is_msgid { l_msg_id() } else { l_irt() };
    let name: Seq<char> = if is_msgid { n_msg_id() } else { n_irt() };
    let t = key + spec_dec(k as nat) + seq![','] + cont;
    let after_name = seq![':'] + (spec_dec(k as nat) + (seq![','] + cont));
    assert(t[0] == '"') by {
        assert(key[0] == '"');
    }
    assert(sp_ws(t) == t);
    assert(t.skip(1) =~= name + q() + after_name);
    lemma_jstr_name(name, after_name);
    assert(sp_ws(after_name) == after_name && after_name[0] == ':');
    let v = spec_dec(k as nat) + (seq![','] + cont);
    assert(after_name.skip(1) =~= v);
    crate::numbers::lemma_spec_dec_shape(k as nat);
    assert(v[0] == spec_dec(k as nat)[0]);
    lemma_token_chars(v[0]);
    assert(sp_ws(v) == v);
    assert((seq![','] + cont)[0] == ',');
    assert(!is_dec_digit(','));
    lemma_parse_dec_round_trip(k, seq![','] + cont);
    assert(n_irt() != n_msg_id());
    let acc2: BodyAcc = if is_msgid {
        BodyAcc { id: Some(k), ..acc }
    } else {
        BodyAcc { irt: Some(k), ..acc }
    };
    assert(sp_body_member_value(name, v, acc) == Some((acc2, seq![','] + cont)));
    let r4 = seq![','] + cont;
    assert(sp_ws(r4) == r4 && r4[0] == ',');
    assert(r4.len() < t.len());
    assert(r4.skip(1) =~= cont);
    assert(sp_ws(cont) == cont && cont[0] == '"');
}

/// Walking a whole canonical body, from after its opening brace: the
/// optional numeric members, the `type` member, the payload's members, and
/// the closing brace.
pub proof fn lemma_rt_body(id: Option<usize>, irt: Option<usize>, p: PayloadView, rest: Seq<char>)
    ensures
        sp_parse_body_members(
            enc_opt_num(l_msg_id(), id) + enc_opt_num(l_irt(), irt) + l_type() + enc_payload(p)
                + seq!['}'] + rest,
            body_acc_empty(),
        ) == Some((
            acc_with_payload(BodyAcc { id, irt, ..body_acc_empty() }, p),
            rest,
        )),
{
    let t_tail = l_type() + enc_payload(p) + seq!['}'] + rest;
    let s = enc_opt_num(l_msg_id(), id) + enc_opt_num(l_irt(), irt) + t_tail;
    assert(enc_opt_num(l_msg_id(), id) + enc_opt_num(l_irt(), irt) + l_type() + enc_payload(p)
        + seq!['}'] + rest =~= s);
    assert(t_tail[0] == '"');
    match (id, irt) {
        (None, None) => {
            assert(s =~= t_tail);
            lemma_rt_tail(p, BodyAcc { id: None, irt: None, ..body_acc_empty() }, rest);
            assert(BodyAcc { id: None, irt: None, ..body_acc_empty() } =~= body_acc_empty());
        },
        (Some(a), None) => {
            assert(s =~= l_msg_id() + spec_dec(a as nat) + seq![','] + t_tail);
            lemma_rt_num_member(true, a, t_tail, body_acc_empty());
            lemma_rt_tail(p, BodyAcc { id: Some(a), ..body_acc_empty() }, rest);
            assert(BodyAcc { id: Some(a), irt: None, ..body_acc_empty() }
                =~= BodyAcc { id: Some(a), ..body_acc_empty() });
        },
        (None, Some(b)) => {
            assert(s =~= l_irt() + spec_dec(b as nat) + seq![','] + t_tail);
            lemma_rt_num_member(false, b, t_tail, body_acc_empty());
            lemma_rt_tail(p, BodyAcc { irt: Some(b), ..body_acc_empty() }, rest);
            assert(BodyAcc { id: None, irt: Some(b), ..body_acc_empty() }
                =~= BodyAcc { irt: Some(b), ..body_acc_empty() });
        },
        (Some(a), Some(b)) => {
            let mid = l_irt() + spec_dec(b as nat) + seq![','] + t_tail;
            assert(mid[0] == '"');
            assert(s =~= l_msg_id() + spec_dec(a as nat) + seq![','] + mid);
            lemma_rt_num_member(true, a, mid, body_acc_empty());
            lemma_rt_num_member(false, b, t_tail, BodyAcc { id: Some(a), ..body_acc_empty() });
            lemma_rt_tail(p, BodyAcc { irt: Some(b), id: Some(a), ..body_acc_empty() }, rest);
            assert(BodyAcc { id: Some(a), irt: Some(b), ..body_acc_empty() }
                =~= BodyAcc { irt: Some(b), id: Some(a), ..body_acc_empty() });
        },
    }
}

/// The six tags are pairwise distinct.
proof fn lemma_tags_distinct()
    ensures
        t_init() != t_init_ok(),
        t_init() != t_echo(),
        t_init() != t_echo_ok(),
        t_init() != t_generate(),
        t_init() != t_generate_ok(),
        t_init_ok() != t_echo(),
        t_init_ok() != t_echo_ok(),
        t_init_ok() != t_generate(),
        t_init_ok() != t_generate_ok(),
        t_echo() != t_echo_ok(),
        t_echo() != t_generate(),
        t_echo() != t_generate_ok(),
        t_echo_ok() != t_generate(),
        t_echo_ok() != t_generate_ok(),
        t_generate() != t_generate_ok(),
{
    assert(t_init().len() == 4 && t_init_ok().len() == 7 && t_echo().len() == 4
        && t_echo_ok().len() == 7 && t_generate().len() == 8 && t_generate_ok().len() == 11);
    assert(t_init()[0] == 'i' && t_echo()[0] == 'e' && t_init_ok()[0] == 'i'
        && t_echo_ok()[0] == 'e' && t_generate()[0] == 'g');
}

/// Interpreting the accumulator of a canonical body yields the body.
pub proof fn lemma_acc_interp(id: Option<usize>, irt: Option<usize>, p: PayloadView)
    ensures
        sp_body_from_acc(acc_with_payload(BodyAcc { id, irt, ..body_acc_empty() }, p))
            == Some(BodyView { id, in_reply_to: irt, payload: p }),
{
    lemma_tags_distinct();
    let acc = acc_with_payload(BodyAcc { id, irt, ..body_acc_empty() }, p);
    match p {
        PayloadView::Init(i) => {
            assert(acc.tag == Some(t_init()));
            assert(InitView { node_id: i.node_id, node_ids: i.node_ids } =~= i);
            assert(sp_body_from_acc(acc) =~= Some(BodyView { id, in_reply_to: irt, payload: p }));
        },
        PayloadView::InitOk => {
            assert(t_init_ok() != t_init());
            assert(sp_body_from_acc(acc) =~= Some(BodyView { id, in_reply_to: irt, payload: p }));
        },
        PayloadView::Echo(e) => {
            assert(t_echo() != t_init() && t_echo() != t_init_ok());
            assert(sp_body_from_acc(acc) =~= Some(BodyView { id, in_reply_to: irt, payload: p }));
        },
        PayloadView::EchoOk(e) => {
            assert(t_echo_ok() != t_init() && t_echo_ok() != t_init_ok() && t_echo_ok() != t_echo());
            assert(sp_body_from_acc(acc) =~= Some(BodyView { id, in_reply_to: irt, payload: p }));
        },
        PayloadView::Generate => {
            assert(t_generate() != t_init() && t_generate() != t_init_ok()
                && t_generate() != t_echo() && t_generate() != t_echo_ok());
            assert(sp_body_from_acc(acc) =~= Some(BodyView { id, in_reply_to: irt, payload: p }));
        },
        PayloadView::GenerateOk(g) => {
            assert(t_generate_ok() != t_init() && t_generate_ok() != t_init_ok()
                && t_generate_ok() != t_echo() && t_generate_ok() != t_echo_ok()
                && t_generate_ok() != t_generate());
            assert(sp_body_from_acc(acc) =~= Some(BodyView { id, in_reply_to: irt, payload: p }));
        },
    }
}

/// Walking one string-valued envelope member (`src` or `dest`), whose
/// continuation is a comma leading into another member.
#[verifier::rlimit(100)]
proof fn lemma_rt_env_str_member(is_src: bool, content: Seq<char>, cont: Seq<char>, acc: EnvAcc)
    requires
        is_src ==> acc.src is None,
        !is_src ==> acc.dst is None,
        cont.len() > 0,
        cont[0] == ',',
        cont.skip(1).len() > 0,
        cont.skip(1)[0] == '"',
    ensures
        ({
            let name = if is_src { n_src() } else { n_dest() };
            let acc2 = if is_src {
                EnvAcc { src: Some(content), ..acc }
            } else {
                EnvAcc { dst: Some(content), ..acc }
            };
            sp_parse_env_members(q() + name + q() + (seq![':'] + (q() + (esc(content) + q()
                + cont))), acc) == sp_parse_env_members(cont.skip(1), acc2)
        }),
{
    lemma_names_wire();
    let name: Seq<char> = if is_src { n_src() } else { n_dest() };
    let t = q() + name + q() + (seq![':'] + (q() + (esc(content) + q() + cont)));
    assert(t[0] == '"');
    assert(sp_ws(t) == t);
    assert(t.skip(1) =~= name + q() + (seq![':'] + (q() + (esc(content) + q() + cont))));
    lemma_jstr_name(name, seq![':'] + (q() + (esc(content) + q() + cont)));
    let a1 = seq![':'] + (q() + (esc(content) + q() + cont));
    assert(sp_ws(a1) == a1 && a1[0] == ':');
    let v1 = q() + (esc(content) + q() + cont);
    assert(a1.skip(1) =~= v1);
    assert(sp_ws(v1) == v1 && v1[0] == '"');
    assert(v1.skip(1) =~= esc(content) + q() + cont);
    lemma_parse_jstr_esc(content, cont);
    assert(n_dest() != n_src());
    let acc2: EnvAcc = if is_src {
        EnvAcc { src: Some(content), ..acc }
    } else {
        EnvAcc { dst: Some(content), ..acc }
    };
    assert(sp_env_member_value(name, v1, acc) == Some((acc2, cont)));
    assert(sp_ws(cont) == cont);
    assert(cont.len() < t.len());
    assert(sp_ws(cont.skip(1)) == cont.skip(1));
}

/// Walking the three envelope members of the canonical form.
#[verifier::rlimit(100)]
proof fn lemma_rt_env(m: MessageView)
    ensures
        sp_parse_env_members(spec_encode(m).skip(1), env_acc_empty())
            == Some((
                EnvAcc { src: Some(m.src), dst: Some(m.dst), body: Some(m.body) },
                Seq::<char>::empty(),
            )),
{
    lemma_names_wire();
    let s = spec_encode(m);
    let bt = enc_opt_num(l_msg_id(), m.body.id) + enc_opt_num(l_irt(), m.body.in_reply_to)
        + l_type() + enc_payload(m.body.payload) + seq!['}'] + seq!['}'];
    // member: src
    let rest1 = l_dest() + esc(m.dst) + q() + (l_body() + bt);
    let t1 = s.skip(1);
    assert(t1 =~= q() + n_src() + q() + (seq![':'] + (q() + (esc(m.src) + q() + rest1))));
    assert(rest1[0] == ',') by {
        assert(rest1[0] == l_dest()[0]);
    }
    let t2 = q() + n_dest() + q() + (seq![':'] + (q() + (esc(m.dst) + q() + (l_body() + bt))));
    assert(rest1.skip(1) =~= t2);
    assert(rest1.skip(1)[0] == '"');
    lemma_rt_env_str_member(true, m.src, rest1, env_acc_empty());
    let e1 = EnvAcc { src: Some(m.src), ..env_acc_empty() };
    // member: dest
    let rest2 = l_body() + bt;
    assert(rest2[0] == ',') by {
        assert(rest2[0] == l_body()[0]);
    }
    let t3 = q() + n_body() + q() + (seq![':'] + (seq!['{'] + bt));
    assert(rest2.skip(1) =~= t3);
    assert(rest2.skip(1)[0] == '"');
    lemma_rt_env_str_member(false, m.dst, rest2, e1);
    let e2 = EnvAcc { dst: Some(m.dst), ..e1 };
    // member: body
    assert(t3[0] == '"');
    assert(sp_ws(t3) == t3);
    assert(t3.skip(1) =~= n_body() + q() + (seq![':'] + (seq!['{'] + bt)));
    lemma_jstr_name(n_body(), seq![':'] + (seq!['{'] + bt));
    let a3 = seq![':'] + (seq!['{'] + bt);
    assert(sp_ws(a3) == a3 && a3[0] == ':');
    let v3 = seq!['{'] + bt;
    assert(a3.skip(1) =~= v3);
    assert(sp_ws(v3) == v3 && v3[0] == '{');
    assert(v3.skip(1) =~= enc_opt_num(l_msg_id(), m.body.id)
        + enc_opt_num(l_irt(), m.body.in_reply_to) + l_type() + enc_payload(m.body.payload)
        + seq!['}'] + seq!['}']);
    lemma_rt_body(m.body.id, m.body.in_reply_to, m.body.payload, seq!['}']);
    lemma_acc_interp(m.body.id, m.body.in_reply_to, m.body.payload);
    assert(BodyView { id: m.body.id, in_reply_to: m.body.in_reply_to, payload: m.body.payload }
        =~= m.body);
    assert(n_body() != n_src() && n_body() != n_dest());
    let e3 = EnvAcc { body: Some(m.body), ..e2 };
    assert(sp_env_member_value(n_body(), v3, e2) == Some((e3, seq!['}'])));
    let r4 = seq!['}'];
    assert(sp_ws(r4) == r4 && r4[0] == '}');
    assert(r4.len() < t3.len());
    assert(r4.skip(1) =~= Seq::<char>::empty());
    assert(sp_parse_env_members(t3, e2) == Some((e3, Seq::<char>::empty())));
    assert(e3 =~= (EnvAcc { src: Some(m.src), dst: Some(m.dst), body: Some(m.body) }));
}

/// Round trip: decoding the canonical wire form of an envelope yields that
/// envelope again, every observable field intact.
pub proof fn lemma_encode_decode(m: MessageView)
    ensures
        sp_decode(spec_encode(m)) == Some(m),
{
    let s = spec_encode(m);
    assert(s[0] == '{') by {
        assert(s[0] == l_open()[0]);
    }
    assert(sp_ws(s) == s);
    lemma_rt_env(m);
    assert(sp_decode(s) == Some(MessageView { src: m.src, dst: m.dst, body: m.body }));
    assert(MessageView { src: m.src, dst: m.dst, body: m.body } =~= m);
}

// ---------------------------------------------------------------------------
// Executable codec.
// ---------------------------------------------------------------------------

/// A line that could not be decoded, carrying the offending text.
#[derive(Debug)]
pub struct DecodeError {
    pub raw: String,
}

/// Relies on std's `str::chars`: it yields the string's characters in order.
#[verifier::external_body]
pub(crate) fn str_to_chars(s: &str) -> (r: Vec<char>)
    ensures
        r@ == s@,
{
    s.chars().collect()
}

/// Relies on std's `FromIterator for String`: collecting characters builds
/// the string holding exactly those characters in order.
#[verifier::external_body]
pub(crate) fn chars_to_string(v: &Vec<char>) -> (r: String)
    ensures
        r@ == v@,
{
    v.iter().collect()
}

/// Relies on std's `char::from_u32`: yields the character with the given
/// code point exactly when that code point is a Unicode scalar value.
#[verifier::external_body]
fn char_from_code(v: u32) -> (r: Option<char>)
    ensures
        r matches Some(c) ==> c as u32 == v,
        r is Some <==> is_scalar_code(v),
{
    char::from_u32(v)
}

fn lit_n_src() -> (r: Vec<char>)
    ensures r@ == n_src(),
{
    let r: Vec<char> = vec!['s', 'r', 'c'];
    assert(r@ =~= n_src());
    r
}

fn lit_n_dest() -> (r: Vec<char>)
    ensures r@ == n_dest(),
{
    let r: Vec<char> = vec!['d', 'e', 's', 't'];
    assert(r@ =~= n_dest());
    r
}

fn lit_n_body() -> (r: Vec<char>)
    ensures r@ == n_body(),
{
    let r: Vec<char> = vec!['b', 'o', 'd', 'y'];
    assert(r@ =~= n_body());
    r
}

fn lit_n_msg_id() -> (r: Vec<char>)
    ensures r@ == n_msg_id(),
{
    let r: Vec<char> = vec!['m', 's', 'g', '_', 'i', 'd'];
    assert(r@ =~= n_msg_id());
    r
}

fn lit_n_irt() -> (r: Vec<char>)
    ensures r@ == n_irt(),
{
    let r: Vec<char> = vec!['i', 'n', '_', 'r', 'e', 'p', 'l', 'y', '_', 't', 'o'];
    assert(r@ =~= n_irt());
    r
}

fn lit_n_type() -> (r: Vec<char>)
    ensures r@ == n_type(),
{
    let r: Vec<char> = vec!['t', 'y', 'p', 'e'];
    assert(r@ =~= n_type());
    r
}

fn lit_n_node_id() -> (r: Vec<char>)
    ensures r@ == n_node_id(),
{
    let r: Vec<char> = vec!['n', 'o', 'd', 'e', '_', 'i', 'd'];
    assert(r@ =~= n_node_id());
    r
}

fn lit_n_node_ids() -> (r: Vec<char>)
    ensures r@ == n_node_ids(),
{
    let r: Vec<char> = vec!['n', 'o', 'd', 'e', '_', 'i', 'd', 's'];
    assert(r@ =~= n_node_ids());
    r
}

fn lit_n_echo() -> (r: Vec<char>)
    ensures r@ == n_echo(),
{
    let r: Vec<char> = vec!['e', 'c', 'h', 'o'];
    assert(r@ =~= n_echo());
    r
}

fn lit_n_id() -> (r: Vec<char>)
    ensures r@ == n_id(),
{
    let r: Vec<char> = vec!['i', 'd'];
    assert(r@ =~= n_id());
    r
}

fn lit_t_init() -> (r: Vec<char>)
    ensures r@ == t_init(),
{
    let r: Vec<char> = vec!['i', 'n', 'i', 't'];
    assert(r@ =~= t_init());
    r
}

fn lit_t_init_ok() -> (r: Vec<char>)
    ensures r@ == t_init_ok(),
{
    let r: Vec<char> = vec!['i', 'n', 'i', 't', '_', 'o', 'k'];
    assert(r@ =~= t_init_ok());
    r
}

fn lit_t_echo() -> (r: Vec<char>)
    ensures r@ == t_echo(),
{
    let r: Vec<char> = vec!['e', 'c', 'h', 'o'];
    assert(r@ =~= t_echo());
    r
}

fn lit_t_echo_ok() -> (r: Vec<char>)
    ensures r@ == t_echo_ok(),
{
    let r: Vec<char> = vec!['e', 'c', 'h', 'o', '_', 'o', 'k'];
    assert(r@ =~= t_echo_ok());
    r
}

fn lit_t_generate() -> (r: Vec<char>)
    ensures r@ == t_generate(),
{
    let r: Vec<char> = vec!['g', 'e', 'n', 'e', 'r', 'a', 't', 'e'];
    assert(r@ =~= t_generate());
    r
}

fn lit_t_generate_ok() -> (r: Vec<char>)
    ensures r@ == t_generate_ok(),
{
    let r: Vec<char> = vec!['g', 'e', 'n', 'e', 'r', 'a', 't', 'e', '_', 'o', 'k'];
    assert(r@ =~= t_generate_ok());
    r
}

/// Do the string's characters equal the given character sequence?
fn str_eq_chars(s: &String, lit: &Vec<char>) -> (r: bool)
    ensures
        r == (s@ == lit@),
{
    let cs = str_to_chars(s.as_str());
    if cs.len() != lit.len() {
        return false;
    }
    let mut i: usize = 0;
    while i < cs.len()
        invariant
            i <= cs.len(),
            cs.len() == lit.len(),
            cs@ == s@,
            forall|j: int| 0 <= j < i ==> cs@[j] == lit@[j],
        decreases cs.len() - i,
    {
        if cs[i] != lit[i] {
            return false;
        }
        i += 1;
    }
    proof {
        assert(s@ =~= lit@);
    }
    true
}

/// Is `c` JSON whitespace?
fn is_ws_c(c: char) -> (r: bool)
    ensures
        r == is_ws_char(c),
{
    c == ' ' || c == '\t' || c == '\n' || c == '\r'
}

/// Skip whitespace from `pos`.
fn ws_at(v: &Vec<char>, pos: usize) -> (r: usize)
    requires
        pos <= v.len(),
    ensures
        pos <= r <= v.len(),
        v@.skip(r as int) == sp_ws(v@.skip(pos as int)),
{
    let mut i: usize = pos;
    while i < v.len() && is_ws_c(v[i])
        invariant
            pos <= i <= v.len(),
            sp_ws(v@.skip(pos as int)) == sp_ws(v@.skip(i as int)),
        decreases v.len() - i,
    {
        proof {
            assert(v@.skip(i as int)[0] == v@[i as int]);
            assert(v@.skip(i as int).skip(1) =~= v@.skip(i + 1));
        }
        i += 1;
    }
    proof {
        if i < v.len() {
            assert(v@.skip(i as int)[0] == v@[i as int]);
        }
        assert(sp_ws(v@.skip(i as int)) == v@.skip(i as int));
    }
    i
}

/// Is `c` a hexadecimal digit, executable.
fn is_hex_c(c: char) -> (r: bool)
    ensures
        r == is_hex_digit(c),
{
    let u: u32 = c as u32;
    (0x30 <= u && u <= 0x39) || (0x61 <= u && u <= 0x66) || (0x41 <= u && u <= 0x46)
}

/// The value of a hexadecimal digit, executable.
fn hex_val_c(c: char) -> (r: u32)
    requires
        is_hex_digit(c),
    ensures
        r == hex_val(c),
        r < 16,
{
    let u: u32 = c as u32;
    if u <= 0x39 {
        u - 0x30
    } else if u >= 0x61 {
        u - 0x57
    } else {
        u - 0x37
    }
}

/// The character a short escape stands for, executable.
fn unescape_short_c(c: char) -> (r: Option<char>)
    ensures
        r == unescape_short(c),
{
    if c == '"' { Some('"') } else if c == '\\' { Some('\\') } else if c == '/' { Some('/') }
    else if c == 'b' { Some('\u{8}') } else if c == 'f' { Some('\u{c}') }
    else if c == 'n' { Some('\n') } else if c == 'r' { Some('\r') } else if c == 't' { Some('\t') }
    else { None }
}

/// Scan a JSON string body at `pos` (its opening quote already consumed);
/// yields the unescaped content and the position just past the closing
/// quote.
fn jstr_at(v: &Vec<char>, pos: usize) -> (r: Option<(Vec<char>, usize)>)
    requires
        pos <= v.len(),
    ensures
        match r {
            Some((c, p2)) => pos < p2 <= v.len()
                && sp_parse_jstr(v@.skip(pos as int)) == Some((c@, v@.skip(p2 as int))),
            None => sp_parse_jstr(v@.skip(pos as int)) is None,
        },
    decreases v.len() - pos,
{
    let ghost s = v@.skip(pos as int);
    if pos == v.len() {
        return None;
    }
    let c0 = v[pos];
    proof {
        assert(s[0] == c0);
    }
    if c0 == '"' {
        let cs: Vec<char> = Vec::new();
        proof {
            assert(cs@ =~= Seq::<char>::empty());
            assert(s.skip(1) =~= v@.skip(pos + 1));
        }
        return Some((cs, pos + 1));
    }
    if c0 == '\\' {
        if pos + 1 == v.len() {
            proof {
                assert(s.len() == 1);
            }
            return None;
        }
        let e = v[pos + 1];
        proof {
            assert(s[1] == e);
            assert(s.len() >= 2);
        }
        if e == 'u' {
            if v.len() - pos < 6 {
                proof {
                    assert(s.len() < 6);
                }
                return None;
            }
            let h2 = v[pos + 2];
            let h3 = v[pos + 3];
            let h4 = v[pos + 4];
            let h5 = v[pos + 5];
            proof {
                assert(s.len() >= 6);
                assert(s[2] == h2 && s[3] == h3 && s[4] == h4 && s[5] == h5);
            }
            if !(is_hex_c(h2) && is_hex_c(h3) && is_hex_c(h4) && is_hex_c(h5)) {
                return None;
            }
            let val: u32 = ((hex_val_c(h2) * 16 + hex_val_c(h3)) * 16 + hex_val_c(h4)) * 16
                + hex_val_c(h5);
            if val >= 0xD800 && val < 0xE000 {
                proof {
                    assert(!is_scalar_code(val));
                }
                return None;
            }
            proof {
                assert(is_scalar_code(val));
            }
            let c = match char_from_code(val) {
                Some(c) => c,
                None => {
                    proof {
                        assert(false);
                    }
                    return None;
                },
            };
            proof {
                assert(c as u32 == val);
                lemma_char_code_inverse(c);
                assert(char_of_code(val) == c);
                assert(s.skip(6) =~= v@.skip(pos + 6));
            }
            match jstr_at(v, pos + 6) {
                None => None,
                Some((tail, p2)) => {
                    let ghost tv = tail@;
                    let mut cs = tail;
                    cs.insert(0, c);
                    proof {
                        assert(cs@ =~= seq![char_of_code(val)] + tv);
                    }
                    Some((cs, p2))
                },
            }
        } else {
            let u = match unescape_short_c(e) {
                Some(u) => u,
                None => {
                    return None;
                },
            };
            proof {
                assert(s.skip(2) =~= v@.skip(pos + 2));
            }
            match jstr_at(v, pos + 2) {
                None => None,
                Some((tail, p2)) => {
                    let ghost tv = tail@;
                    let mut cs = tail;
                    cs.insert(0, u);
                    proof {
                        assert(cs@ =~= seq![u] + tv);
                    }
                    Some((cs, p2))
                },
            }
        }
    } else if (c0 as u32) >= 0x20 {
        proof {
            assert(s.skip(1) =~= v@.skip(pos + 1));
        }
        match jstr_at(v, pos + 1) {
            None => None,
            Some((tail, p2)) => {
                let ghost tv = tail@;
                let mut cs = tail;
                cs.insert(0, c0);
                proof {
                    assert(cs@ =~= seq![c0] + tv);
                }
                Some((cs, p2))
            },
        }
    } else {
        None
    }
}

/// Parse a quoted string value at `pos`.
fn str_value_at(v: &Vec<char>, pos: usize) -> (r: Option<(String, usize)>)
    requires
        pos <= v.len(),
    ensures
        match r {
            Some((t, p2)) => pos < p2 <= v.len()
                && sp_parse_str_value(v@.skip(pos as int)) == Some((t@, v@.skip(p2 as int))),
            None => sp_parse_str_value(v@.skip(pos as int)) is None,
        },
{
    let ghost s = v@.skip(pos as int);
    if pos == v.len() {
        return None;
    }
    if v[pos] != '"' {
        proof {
            assert(s[0] == v@[pos as int]);
        }
        return None;
    }
    proof {
        assert(s[0] == '"');
        assert(s.skip(1) =~= v@.skip(pos + 1));
    }
    match jstr_at(v, pos + 1) {
        None => None,
        Some((cs, p2)) => Some((chars_to_string(&cs), p2)),
    }
}

/// Parse a string list at `pos` (its opening bracket already consumed).
fn jstr_list_at(v: &Vec<char>, pos: usize) -> (r: Option<(Vec<String>, usize)>)
    requires
        pos <= v.len(),
    ensures
        match r {
            Some((xs, p2)) => pos < p2 <= v.len()
                && sp_parse_jstr_list(v@.skip(pos as int)) == Some((xs.deep_view(), v@.skip(p2 as int))),
            None => sp_parse_jstr_list(v@.skip(pos as int)) is None,
        },
    decreases v.len() - pos,
{
    let ghost s = v@.skip(pos as int);
    let p0 = ws_at(v, pos);
    if p0 == v.len() {
        return None;
    }
    if v[p0] == ']' {
        let xs: Vec<String> = Vec::new();
        proof {
            assert(sp_ws(s)[0] == v@[p0 as int]);
            assert(sp_ws(s).skip(1) =~= v@.skip(p0 + 1));
            assert(xs.deep_view() =~= Seq::<Seq<char>>::empty());
        }
        return Some((xs, p0 + 1));
    }
    if v[p0] != '"' {
        proof {
            assert(sp_ws(s)[0] == v@[p0 as int]);
        }
        return None;
    }
    proof {
        assert(sp_ws(s)[0] == '"');
        assert(sp_ws(s).skip(1) =~= v@.skip(p0 + 1));
    }
    match jstr_at(v, p0 + 1) {
        None => None,
        Some((e, p)) => {
            let p1 = ws_at(v, p);
            proof {
                assert(v@.skip(p1 as int).len() < s.len());
            }
            if p1 == v.len() {
                return None;
            }
            if v[p1] == ',' {
                proof {
                    assert(v@.skip(p1 as int)[0] == ',');
                    assert(v@.skip(p1 as int).skip(1) =~= v@.skip(p1 + 1));
                }
                let p2 = ws_at(v, p1 + 1);
                if p2 < v.len() && v[p2] == '"' {
                    proof {
                        assert(v@.skip(p2 as int)[0] == '"');
                    }
                    match jstr_list_at(v, p1 + 1) {
                        None => None,
                        Some((ys, p3)) => {
                            let ghost ydv = ys.deep_view();
                            let mut xs = ys;
                            xs.insert(0, chars_to_string(&e));
                            proof {
                                assert(xs.deep_view() =~= seq![e@] + ydv) by {
                                    assert(xs@.len() == ydv.len() + 1);
                                    assert(forall|j: int| 0 <= j < xs@.len()
                                        ==> #[trigger] xs.deep_view()[j] == xs@[j]@);
                                }
                            }
                            Some((xs, p3))
                        },
                    }
                } else {
                    proof {
                        if p2 < v.len() {
                            assert(v@.skip(p2 as int)[0] == v@[p2 as int]);
                        }
                    }
                    None
                }
            } else if v[p1] == ']' {
                let mut xs: Vec<String> = Vec::new();
                xs.push(chars_to_string(&e));
                proof {
                    assert(v@.skip(p1 as int)[0] == ']');
                    assert(v@.skip(p1 as int).skip(1) =~= v@.skip(p1 + 1));
                    assert(xs.deep_view() =~= seq![e@]);
                }
                Some((xs, p1 + 1))
            } else {
                proof {
                    assert(v@.skip(p1 as int)[0] == v@[p1 as int]);
                }
                None
            }
        },
    }
}

/// The body members gathered so far, as executable values.
struct BodyParts {
    id: Option<usize>,
    irt: Option<usize>,
    tag: Option<String>,
    node_id: Option<String>,
    node_ids: Option<Vec<String>>,
    echo: Option<String>,
    gid: Option<String>,
}

impl View for BodyParts {
    type V = BodyAcc;

    closed spec fn view(&self) -> BodyAcc {
        BodyAcc {
            id: self.id,
            irt: self.irt,
            tag: match self.tag {
                Some(t) => Some(t@),
                None => None,
            },
            node_id: match self.node_id {
                Some(t) => Some(t@),
                None => None,
            },
            node_ids: match self.node_ids {
                Some(t) => Some(t.deep_view()),
                None => None,
            },
            echo: match self.echo {
                Some(t) => Some(t@),
                None => None,
            },
            gid: match self.gid {
                Some(t) => Some(t@),
                None => None,
            },
        }
    }
}

/// Consume one body member's value by name.
fn body_member_value_at(name: &String, v: &Vec<char>, pos: usize, parts: BodyParts) -> (r: Option<
    (BodyParts, usize),
>)
    requires
        pos <= v.len(),
    ensures
        match r {
            Some((p2, e)) => pos <= e <= v.len()
                && sp_body_member_value(name@, v@.skip(pos as int), parts@)
                    == Some((p2@, v@.skip(e as int))),
            None => sp_body_member_value(name@, v@.skip(pos as int), parts@) is None,
        },
{
    let ghost s = v@.skip(pos as int);
    if str_eq_chars(name, &lit_n_msg_id()) {
        if parts.id.is_some() {
            return None;
        }
        match parse_usize_at(v, pos) {
            Some((n, e)) => Some((BodyParts { id: Some(n), ..parts }, e)),
            None => None,
        }
    } else if str_eq_chars(name, &lit_n_irt()) {
        if parts.irt.is_some() {
            return None;
        }
        match parse_usize_at(v, pos) {
            Some((n, e)) => Some((BodyParts { irt: Some(n), ..parts }, e)),
            None => None,
        }
    } else if str_eq_chars(name, &lit_n_type()) {
        if parts.tag.is_some() {
            return None;
        }
        match str_value_at(v, pos) {
            Some((t, e)) => Some((BodyParts { tag: Some(t), ..parts }, e)),
            None => None,
        }
    } else if str_eq_chars(name, &lit_n_node_id()) {
        if parts.node_id.is_some() {
            return None;
        }
        match str_value_at(v, pos) {
            Some((t, e)) => Some((BodyParts { node_id: Some(t), ..parts }, e)),
            None => None,
        }
    } else if str_eq_chars(name, &lit_n_node_ids()) {
        if parts.node_ids.is_some() {
            return None;
        }
        if pos == v.len() || v[pos] != '[' {
            proof {
                if pos < v.len() {
                    assert(s[0] == v@[pos as int]);
                }
            }
            return None;
        }
        proof {
            assert(s[0] == '[');
            assert(s.skip(1) =~= v@.skip(pos + 1));
        }
        match jstr_list_at(v, pos + 1) {
            Some((es, e)) => Some((BodyParts { node_ids: Some(es), ..parts }, e)),
            None => None,
        }
    } else if str_eq_chars(name, &lit_n_echo()) {
        if parts.echo.is_some() {
            return None;
        }
        match str_value_at(v, pos) {
            Some((t, e)) => Some((BodyParts { echo: Some(t), ..parts }, e)),
            None => None,
        }
    } else if str_eq_chars(name, &lit_n_id()) {
        if parts.gid.is_some() {
            return None;
        }
        match str_value_at(v, pos) {
            Some((t, e)) => Some((BodyParts { gid: Some(t), ..parts }, e)),
            None => None,
        }
    } else {
        None
    }
}

/// Consume body members from `pos` up to and including the closing brace.
fn body_members_at(v: &Vec<char>, pos: usize, parts: BodyParts) -> (r: Option<(BodyParts, usize)>)
    requires
        pos <= v.len(),
    ensures
        match r {
            Some((p2, e)) => pos <= e <= v.len()
                && sp_parse_body_members(v@.skip(pos as int), parts@)
                    == Some((p2@, v@.skip(e as int))),
            None => sp_parse_body_members(v@.skip(pos as int), parts@) is None,
        },
    decreases v.len() - pos,
{
    let ghost s = v@.skip(pos as int);
    let p0 = ws_at(v, pos);
    if p0 == v.len() {
        return None;
    }
    if v[p0] == '}' {
        proof {
            assert(sp_ws(s)[0] == '}');
            assert(sp_ws(s).skip(1) =~= v@.skip(p0 + 1));
        }
        return Some((parts, p0 + 1));
    }
    if v[p0] != '"' {
        proof {
            assert(sp_ws(s)[0] == v@[p0 as int]);
        }
        return None;
    }
    proof {
        assert(sp_ws(s)[0] == '"');
        assert(sp_ws(s).skip(1) =~= v@.skip(p0 + 1));
    }
    let (name_cs, p1) = match jstr_at(v, p0 + 1) {
        Some(x) => x,
        None => {
            return None;
        },
    };
    let name = chars_to_string(&name_cs);
    let p2 = ws_at(v, p1);
    if p2 == v.len() || v[p2] != ':' {
        proof {
            if p2 < v.len() {
                assert(v@.skip(p2 as int)[0] == v@[p2 as int]);
            }
        }
        return None;
    }
    proof {
        assert(v@.skip(p2 as int)[0] == ':');
        assert(v@.skip(p2 as int).skip(1) =~= v@.skip(p2 + 1));
    }
    let p3 = ws_at(v, p2 + 1);
    let (parts2, p4) = match body_member_value_at(&name, v, p3, parts) {
        Some(x) => x,
        None => {
            return None;
        },
    };
    let p5 = ws_at(v, p4);
    if !(p5 > pos && p5 < v.len()) {
        proof {
            assert(v@.skip(p5 as int).len() < s.len() <==> p5 > pos);
        }
        return None;
    }
    proof {
        assert(v@.skip(p5 as int).len() < s.len());
    }
    if v[p5] == ',' {
        proof {
            assert(v@.skip(p5 as int)[0] == ',');
            assert(v@.skip(p5 as int).skip(1) =~= v@.skip(p5 + 1));
        }
        let p6 = ws_at(v, p5 + 1);
        if p6 < v.len() && v[p6] == '"' {
            proof {
                assert(v@.skip(p6 as int)[0] == '"');
            }
            body_members_at(v, p5 + 1, parts2)
        } else {
            proof {
                if p6 < v.len() {
                    assert(v@.skip(p6 as int)[0] == v@[p6 as int]);
                }
            }
            None
        }
    } else if v[p5] == '}' {
        proof {
            assert(v@.skip(p5 as int)[0] == '}');
            assert(v@.skip(p5 as int).skip(1) =~= v@.skip(p5 + 1));
        }
        Some((parts2, p5 + 1))
    } else {
        proof {
            assert(v@.skip(p5 as int)[0] == v@[p5 as int]);
        }
        None
    }
}

/// Interpret gathered body members, mirroring [`sp_body_from_acc`].
fn body_from_parts(parts: BodyParts) -> (r: Option<Body>)
    ensures
        match r {
            Some(b) => sp_body_from_acc(parts@) == Some(b@),
            None => sp_body_from_acc(parts@) is None,
        },
{
    let BodyParts { id, irt, tag, node_id, node_ids, echo, gid } = parts;
    let tag = match tag {
        Some(t) => t,
        None => {
            return None;
        },
    };
    if str_eq_chars(&tag, &lit_t_init()) {
        match (node_id, node_ids) {
            (Some(nid), Some(nids)) => {
                if echo.is_some() || gid.is_some() {
                    return None;
                }
                let b = Body {
                    id,
                    in_reply_to: irt,
                    payload: Payload::Init(Init { node_id: nid, node_ids: nids }),
                };
                proof {
                    assert(sp_body_from_acc(parts@) =~= Some(b@));
                }
                Some(b)
            },
            _ => None,
        }
    } else if str_eq_chars(&tag, &lit_t_init_ok()) {
        if node_id.is_some() || node_ids.is_some() || echo.is_some() || gid.is_some() {
            return None;
        }
        let b = Body { id, in_reply_to: irt, payload: Payload::InitOk };
        proof {
            assert(sp_body_from_acc(parts@) =~= Some(b@));
        }
        Some(b)
    } else if str_eq_chars(&tag, &lit_t_echo()) {
        match echo {
            Some(e) => {
                if node_id.is_some() || node_ids.is_some() || gid.is_some() {
                    return None;
                }
                let b = Body { id, in_reply_to: irt, payload: Payload::Echo { echo: e } };
                proof {
                    assert(sp_body_from_acc(parts@) =~= Some(b@));
                }
                Some(b)
            },
            None => None,
        }
    } else if str_eq_chars(&tag, &lit_t_echo_ok()) {
        match echo {
            Some(e) => {
                if node_id.is_some() || node_ids.is_some() || gid.is_some() {
                    return None;
                }
                let b = Body { id, in_reply_to: irt, payload: Payload::EchoOk { echo: e } };
                proof {
                    assert(sp_body_from_acc(parts@) =~= Some(b@));
                }
                Some(b)
            },
            None => None,
        }
    } else if str_eq_chars(&tag, &lit_t_generate()) {
        if node_id.is_some() || node_ids.is_some() || echo.is_some() || gid.is_some() {
            return None;
        }
        let b = Body { id, in_reply_to: irt, payload: Payload::Generate };
        proof {
            assert(sp_body_from_acc(parts@) =~= Some(b@));
        }
        Some(b)
    } else if str_eq_chars(&tag, &lit_t_generate_ok()) {
        match gid {
            Some(g) => {
                if node_id.is_some() || node_ids.is_some() || echo.is_some() {
                    return None;
                }
                let b = Body { id, in_reply_to: irt, payload: Payload::GenerateOk { guid: g } };
                proof {
                    assert(sp_body_from_acc(parts@) =~= Some(b@));
                }
                Some(b)
            },
            None => None,
        }
    } else {
        None
    }
}

/// The envelope members gathered so far, as executable values.
struct EnvParts {
    src: Option<String>,
    dst: Option<String>,
    body: Option<Body>,
}

impl View for EnvParts {
    type V = EnvAcc;

    closed spec fn view(&self) -> EnvAcc {
        EnvAcc {
            src: match self.src {
                Some(t) => Some(t@),
                None => None,
            },
            dst: match self.dst {
                Some(t) => Some(t@),
                None => None,
            },
            body: match self.body {
                Some(b) => Some(b@),
                None => None,
            },
        }
    }
}

/// Consume one envelope member's value by name.
fn env_member_value_at(name: &String, v: &Vec<char>, pos: usize, parts: EnvParts) -> (r: Option<
    (EnvParts, usize),
>)
    requires
        pos <= v.len(),
    ensures
        match r {
            Some((p2, e)) => pos <= e <= v.len()
                && sp_env_member_value(name@, v@.skip(pos as int), parts@)
                    == Some((p2@, v@.skip(e as int))),
            None => sp_env_member_value(name@, v@.skip(pos as int), parts@) is None,
        },
{
    let ghost s = v@.skip(pos as int);
    if str_eq_chars(name, &lit_n_src()) {
        if parts.src.is_some() {
            return None;
        }
        match str_value_at(v, pos) {
            Some((t, e)) => Some((EnvParts { src: Some(t), ..parts }, e)),
            None => None,
        }
    } else if str_eq_chars(name, &lit_n_dest()) {
        if parts.dst.is_some() {
            return None;
        }
        match str_value_at(v, pos) {
            Some((t, e)) => Some((EnvParts { dst: Some(t), ..parts }, e)),
            None => None,
        }
    } else if str_eq_chars(name, &lit_n_body()) {
        if parts.body.is_some() {
            return None;
        }
        if pos == v.len() || v[pos] != '{' {
            proof {
                if pos < v.len() {
                    assert(s[0] == v@[pos as int]);
                }
            }
            return None;
        }
        proof {
            assert(s[0] == '{');
            assert(s.skip(1) =~= v@.skip(pos + 1));
        }
        let empty = BodyParts {
            id: None,
            irt: None,
            tag: None,
            node_id: None,
            node_ids: None,
            echo: None,
            gid: None,
        };
        proof {
            assert(empty@ =~= body_acc_empty());
        }
        match body_members_at(v, pos + 1, empty) {
            Some((bparts, e)) => match body_from_parts(bparts) {
                Some(b) => Some((EnvParts { body: Some(b), ..parts }, e)),
                None => None,
            },
            None => None,
        }
    } else {
        None
    }
}

/// Consume envelope members from `pos` up to and including the closing
/// brace.
fn env_members_at(v: &Vec<char>, pos: usize, parts: EnvParts) -> (r: Option<(EnvParts, usize)>)
    requires
        pos <= v.len(),
    ensures
        match r {
            Some((p2, e)) => pos <= e <= v.len()
                && sp_parse_env_members(v@.skip(pos as int), parts@)
                    == Some((p2@, v@.skip(e as int))),
            None => sp_parse_env_members(v@.skip(pos as int), parts@) is None,
        },
    decreases v.len() - pos,
{
    let ghost s = v@.skip(pos as int);
    let p0 = ws_at(v, pos);
    if p0 == v.len() {
        return None;
    }
    if v[p0] == '}' {
        proof {
            assert(sp_ws(s)[0] == '}');
            assert(sp_ws(s).skip(1) =~= v@.skip(p0 + 1));
        }
        return Some((parts, p0 + 1));
    }
    if v[p0] != '"' {
        proof {
            assert(sp_ws(s)[0] == v@[p0 as int]);
        }
        return None;
    }
    proof {
        assert(sp_ws(s)[0] == '"');
        assert(sp_ws(s).skip(1) =~= v@.skip(p0 + 1));
    }
    let (name_cs, p1) = match jstr_at(v, p0 + 1) {
        Some(x) => x,
        None => {
            return None;
        },
    };
    let name = chars_to_string(&name_cs);
    let p2 = ws_at(v, p1);
    if p2 == v.len() || v[p2] != ':' {
        proof {
            if p2 < v.len() {
                assert(v@.skip(p2 as int)[0] == v@[p2 as int]);
            }
        }
        return None;
    }
    proof {
        assert(v@.skip(p2 as int)[0] == ':');
        assert(v@.skip(p2 as int).skip(1) =~= v@.skip(p2 + 1));
    }
    let p3 = ws_at(v, p2 + 1);
    let (parts2, p4) = match env_member_value_at(&name, v, p3, parts) {
        Some(x) => x,
        None => {
            return None;
        },
    };
    let p5 = ws_at(v, p4);
    if !(p5 > pos && p5 < v.len()) {
        proof {
            assert(v@.skip(p5 as int).len() < s.len() <==> p5 > pos);
        }
        return None;
    }
    proof {
        assert(v@.skip(p5 as int).len() < s.len());
    }
    if v[p5] == ',' {
        proof {
            assert(v@.skip(p5 as int)[0] == ',');
            assert(v@.skip(p5 as int).skip(1) =~= v@.skip(p5 + 1));
        }
        let p6 = ws_at(v, p5 + 1);
        if p6 < v.len() && v[p6] == '"' {
            proof {
                assert(v@.skip(p6 as int)[0] == '"');
            }
            env_members_at(v, p5 + 1, parts2)
        } else {
            proof {
                if p6 < v.len() {
                    assert(v@.skip(p6 as int)[0] == v@[p6 as int]);
                }
            }
            None
        }
    } else if v[p5] == '}' {
        proof {
            assert(v@.skip(p5 as int)[0] == '}');
            assert(v@.skip(p5 as int).skip(1) =~= v@.skip(p5 + 1));
        }
        Some((parts2, p5 + 1))
    } else {
        proof {
            assert(v@.skip(p5 as int)[0] == v@[p5 as int]);
        }
        None
    }
}

/// Decode one line into an envelope.  Succeeds exactly when the line is a
/// JSON object of the envelope shape; a failure carries the raw text.
pub fn decode_message(line: &str) -> (r: Result<Message, DecodeError>)
    ensures
        match r {
            Ok(m) => sp_decode(line@) == Some(m@),
            Err(e) => sp_decode(line@) is None && e.raw@ == line@,
        },
{
    let v = str_to_chars(line);
    proof {
        assert(v@.skip(0) =~= line@);
    }
    let p0 = ws_at(&v, 0);
    if p0 == v.len() || v[p0] != '{' {
        proof {
            if p0 < v.len() {
                assert(sp_ws(line@)[0] == v@[p0 as int]);
            }
        }
        return Err(DecodeError { raw: line.to_owned() });
    }
    proof {
        assert(sp_ws(line@)[0] == '{');
        assert(sp_ws(line@).skip(1) =~= v@.skip(p0 + 1));
    }
    let empty = EnvParts { src: None, dst: None, body: None };
    proof {
        assert(empty@ =~= env_acc_empty());
    }
    let (parts, p1) = match env_members_at(&v, p0 + 1, empty) {
        Some(x) => x,
        None => {
            return Err(DecodeError { raw: line.to_owned() });
        },
    };
    let p2 = ws_at(&v, p1);
    if p2 != v.len() {
        proof {
            assert(sp_ws(v@.skip(p1 as int)).len() != 0);
        }
        return Err(DecodeError { raw: line.to_owned() });
    }
    proof {
        assert(sp_ws(v@.skip(p1 as int)).len() == 0);
    }
    match parts {
        EnvParts { src: Some(src), dst: Some(dst), body: Some(body) } => {
            let m = Message { src, dst, body };
            proof {
                assert(sp_decode(line@) =~= Some(m@));
            }
            Ok(m)
        },
        _ => Err(DecodeError { raw: line.to_owned() }),
    }
}

// ---------------------------------------------------------------------------
// Executable encoder.
// ---------------------------------------------------------------------------

/// Append a character vector.
fn push_all(out: &mut Vec<char>, xs: &Vec<char>)
    ensures
        final(out)@ == old(out)@ + xs@,
{
    out.extend_from_slice(xs.as_slice());
}

fn lit_open() -> (r: Vec<char>)
    ensures r@ == l_open(),
{
    let r: Vec<char> = vec!['{', '"', 's', 'r', 'c', '"', ':', '"'];
    assert(r@ =~= l_open());
    r
}

fn lit_dest() -> (r: Vec<char>)
    ensures r@ == l_dest(),
{
    let r: Vec<char> = vec![',', '"', 'd', 'e', 's', 't', '"', ':', '"'];
    assert(r@ =~= l_dest());
    r
}

fn lit_body() -> (r: Vec<char>)
    ensures r@ == l_body(),
{
    let r: Vec<char> = vec![',', '"', 'b', 'o', 'd', 'y', '"', ':', '{'];
    assert(r@ =~= l_body());
    r
}

fn lit_msg_id() -> (r: Vec<char>)
    ensures r@ == l_msg_id(),
{
    let r: Vec<char> = vec!['"', 'm', 's', 'g', '_', 'i', 'd', '"', ':'];
    assert(r@ =~= l_msg_id());
    r
}

fn lit_irt() -> (r: Vec<char>)
    ensures r@ == l_irt(),
{
    let r: Vec<char> = vec!['"', 'i', 'n', '_', 'r', 'e', 'p', 'l', 'y', '_', 't', 'o', '"', ':'];
    assert(r@ =~= l_irt());
    r
}

fn lit_type() -> (r: Vec<char>)
    ensures r@ == l_type(),
{
    let r: Vec<char> = vec!['"', 't', 'y', 'p', 'e', '"', ':', '"'];
    assert(r@ =~= l_type());
    r
}

fn lit_node_id() -> (r: Vec<char>)
    ensures r@ == l_node_id(),
{
    let r: Vec<char> = vec![',', '"', 'n', 'o', 'd', 'e', '_', 'i', 'd', '"', ':', '"'];
    assert(r@ =~= l_node_id());
    r
}

fn lit_node_ids() -> (r: Vec<char>)
    ensures r@ == l_node_ids(),
{
    let r: Vec<char> = vec![',', '"', 'n', 'o', 'd', 'e', '_', 'i', 'd', 's', '"', ':', '['];
    assert(r@ =~= l_node_ids());
    r
}

fn lit_echo() -> (r: Vec<char>)
    ensures r@ == l_echo(),
{
    let r: Vec<char> = vec![',', '"', 'e', 'c', 'h', 'o', '"', ':', '"'];
    assert(r@ =~= l_echo());
    r
}

fn lit_id() -> (r: Vec<char>)
    ensures r@ == l_id(),
{
    let r: Vec<char> = vec![',', '"', 'i', 'd', '"', ':', '"'];
    assert(r@ =~= l_id());
    r
}

fn lit_close() -> (r: Vec<char>)
    ensures r@ == l_close(),
{
    let r: Vec<char> = vec!['}', '}'];
    assert(r@ =~= l_close());
    r
}

/// Escaping distributes over appending one character.
proof fn lemma_esc_snoc(s: Seq<char>, c: char)
    ensures
        esc(s.push(c)) == esc(s) + esc_char(c),
    decreases s.len(),
{
    if s.len() == 0 {
        assert(s.push(c)[0] == c);
        assert(s.push(c).skip(1) =~= Seq::<char>::empty());
        assert(esc(Seq::<char>::empty()) == Seq::<char>::empty());
        assert(esc(s.push(c)) =~= esc_char(c) + Seq::<char>::empty());
        assert(esc(s.push(c)) =~= esc_char(c));
        assert(esc(s) + esc_char(c) =~= esc_char(c));
    } else {
        assert(s.push(c)[0] == s[0]);
        assert(s.push(c).skip(1) =~= s.skip(1).push(c));
        lemma_esc_snoc(s.skip(1), c);
        assert(esc(s.push(c)) =~= esc(s) + esc_char(c));
    }
}

/// The lowercase hexadecimal digit for `n < 16`, executable.
fn hex_digit_c(n: u32) -> (c: char)
    requires
        n < 16,
    ensures
        c == hex_digit(n),
{
    if n == 0 { '0' } else if n == 1 { '1' } else if n == 2 { '2' } else if n == 3 { '3' }
    else if n == 4 { '4' } else if n == 5 { '5' } else if n == 6 { '6' } else if n == 7 { '7' }
    else if n == 8 { '8' } else if n == 9 { '9' } else if n == 10 { 'a' } else if n == 11 { 'b' }
    else if n == 12 { 'c' } else if n == 13 { 'd' } else if n == 14 { 'e' } else { 'f' }
}

/// Append the escaped form of a string.
fn push_jstr(out: &mut Vec<char>, s: &str)
    ensures
        final(out)@ == old(out)@ + esc(s@),
{
    let cs = str_to_chars(s);
    let mut i: usize = 0;
    proof {
        assert(s@.take(0) =~= Seq::<char>::empty());
        assert(esc(Seq::<char>::empty()) =~= Seq::<char>::empty());
        assert(out@ =~= old(out)@ + esc(s@.take(0)));
    }
    while i < cs.len()
        invariant
            i <= cs.len(),
            cs@ == s@,
            out@ == old(out)@ + esc(s@.take(i as int)),
        decreases cs.len() - i,
    {
        let c = cs[i];
        proof {
            assert(s@.take(i + 1) =~= s@.take(i as int).push(c));
            lemma_esc_snoc(s@.take(i as int), c);
        }
        if c == '"' {
            out.push('\\');
            out.push('"');
            proof {
                assert(out@ =~= old(out)@ + esc(s@.take(i + 1)));
            }
        } else if c == '\\' {
            out.push('\\');
            out.push('\\');
            proof {
                assert(out@ =~= old(out)@ + esc(s@.take(i + 1)));
            }
        } else if (c as u32) < 0x20 {
            out.push('\\');
            out.push('u');
            out.push('0');
            out.push('0');
            out.push(hex_digit_c((c as u32) / 16));
            out.push(hex_digit_c((c as u32) % 16));
            proof {
                assert(out@ =~= old(out)@ + esc(s@.take(i + 1)));
            }
        } else {
            out.push(c);
            proof {
                assert(out@ =~= old(out)@ + esc(s@.take(i + 1)));
            }
        }
        i += 1;
    }
    proof {
        assert(s@.take(cs@.len() as int) =~= s@);
    }
}

/// Append the encoded form of a string list from index `i` on, including
/// the closing bracket.
fn push_str_list(out: &mut Vec<char>, xs: &Vec<String>, i: usize)
    requires
        i <= xs.len(),
    ensures
        final(out)@ == old(out)@ + enc_str_list(xs.deep_view().skip(i as int)),
    decreases xs.len() - i,
{
    let ghost tail = xs.deep_view().skip(i as int);
    if i == xs.len() {
        out.push(']');
        proof {
            assert(tail.len() == 0);
            assert(out@ =~= old(out)@ + seq![']']);
        }
    } else if i + 1 == xs.len() {
        out.push('"');
        push_jstr(out, xs[i].as_str());
        out.push('"');
        out.push(']');
        proof {
            assert(tail.len() == 1);
            assert(tail[0] == xs.deep_view()[i as int]);
            assert(out@ =~= old(out)@ + (q() + esc(xs.deep_view()[i as int]) + q() + seq![']']));
        }
    } else {
        out.push('"');
        push_jstr(out, xs[i].as_str());
        out.push('"');
        out.push(',');
        push_str_list(out, xs, i + 1);
        proof {
            assert(tail.len() >= 2);
            assert(tail[0] == xs.deep_view()[i as int]);
            assert(tail.skip(1) =~= xs.deep_view().skip(i + 1));
            assert(out@ =~= old(out)@ + (q() + esc(xs.deep_view()[i as int]) + q() + seq![',']
                + enc_str_list(xs.deep_view().skip(i + 1))));
        }
    }
}

/// Encode an envelope into its canonical wire form, without the line
/// terminator.  Every envelope is encodable: strings are escaped.
#[verifier::rlimit(100)]
pub fn encode_message(m: &Message) -> (r: String)
    ensures
        r@ == spec_encode(m@),
{
    let mut o: Vec<char> = Vec::new();
    push_all(&mut o, &lit_open());
    push_jstr(&mut o, m.src.as_str());
    o.push('"');
    push_all(&mut o, &lit_dest());
    push_jstr(&mut o, m.dst.as_str());
    o.push('"');
    push_all(&mut o, &lit_body());
    let ghost hdr = l_open() + esc(m.src@) + q() + l_dest() + esc(m.dst@) + q() + l_body();
    proof {
        assert(o@ =~= hdr);
    }
    if let Some(n) = m.body.id {
        push_all(&mut o, &lit_msg_id());
        push_dec(n, &mut o);
        o.push(',');
    }
    let ghost h2 = hdr + enc_opt_num(l_msg_id(), m.body.id);
    proof {
        assert(o@ =~= h2);
    }
    if let Some(n) = m.body.in_reply_to {
        push_all(&mut o, &lit_irt());
        push_dec(n, &mut o);
        o.push(',');
    }
    let ghost h3 = h2 + enc_opt_num(l_irt(), m.body.in_reply_to);
    proof {
        assert(o@ =~= h3);
    }
    push_all(&mut o, &lit_type());
    match &m.body.payload {
        Payload::Init(init) => {
            push_all(&mut o, &lit_t_init());
            o.push('"');
            push_all(&mut o, &lit_node_id());
            push_jstr(&mut o, init.node_id.as_str());
            o.push('"');
            push_all(&mut o, &lit_node_ids());
            push_str_list(&mut o, &init.node_ids, 0);
            proof {
                assert(init.node_ids.deep_view().skip(0) =~= init.node_ids.deep_view());
                assert(o@ =~= h3 + l_type() + enc_payload(m.body.payload@));
            }
        },
        Payload::InitOk => {
            push_all(&mut o, &lit_t_init_ok());
            o.push('"');
            proof {
                assert(o@ =~= h3 + l_type() + enc_payload(m.body.payload@));
            }
        },
        Payload::Echo { echo } => {
            push_all(&mut o, &lit_t_echo());
            o.push('"');
            push_all(&mut o, &lit_echo());
            push_jstr(&mut o, echo.as_str());
            o.push('"');
            proof {
                assert(o@ =~= h3 + l_type() + enc_payload(m.body.payload@));
            }
        },
        Payload::EchoOk { echo } => {
            push_all(&mut o, &lit_t_echo_ok());
            o.push('"');
            push_all(&mut o, &lit_echo());
            push_jstr(&mut o, echo.as_str());
            o.push('"');
            proof {
                assert(o@ =~= h3 + l_type() + enc_payload(m.body.payload@));
            }
        },
        Payload::Generate => {
            push_all(&mut o, &lit_t_generate());
            o.push('"');
            proof {
                assert(o@ =~= h3 + l_type() + enc_payload(m.body.payload@));
            }
        },
        Payload::GenerateOk { guid } => {
            push_all(&mut o, &lit_t_generate_ok());
            o.push('"');
            push_all(&mut o, &lit_id());
            push_jstr(&mut o, guid.as_str());
            o.push('"');
            proof {
                assert(o@ =~= h3 + l_type() + enc_payload(m.body.payload@));
            }
        },
    }
    push_all(&mut o, &lit_close());
    proof {
        assert(o@ =~= spec_encode(m@));
    }
    chars_to_string(&o)
}

} // verus!
