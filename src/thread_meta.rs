use crate::channel::EmailChannel;
use vstd::prelude::*;
use vstd::string::*;

verus! {

/// The separator between an address and its thread record in a recipient.
pub const EMAIL_REPLY_META_SEP: &'static str = "\u{001F}";

/// The separator as a character.
pub const SEP: char = '\u{1F}';

/// The context needed to answer inside an email thread.
#[derive(Clone, Debug)]
pub struct EmailThreadMeta {
    pub message_id: Option<String>,
    pub subject: Option<String>,
}

/// A thread record as values: its message id and its subject.
pub type MetaView = (Option<Seq<char>>, Option<Seq<char>>);

pub open spec fn opt_view(o: Option<String>) -> Option<Seq<char>> {
    match o {
        None => None,
        Some(s) => Some(s@),
    }
}

impl View for EmailThreadMeta {
    type V = MetaView;

    open spec fn view(&self) -> MetaView {
        (opt_view(self.message_id), opt_view(self.subject))
    }
}

pub open spec fn opt_meta_view(o: Option<EmailThreadMeta>) -> Option<MetaView> {
    match o {
        None => None,
        Some(m) => Some(m@),
    }
}

/// A lowercase hexadecimal digit.
pub open spec fn hex_digit(n: int) -> char {
    if n < 10 {
        ((n + 48) as u8) as char
    } else {
        ((n + 87) as u8) as char
    }
}

/// How one character stands inside a JSON string literal.
pub open spec fn escape_char(c: char) -> Seq<char> {
    if c == '"' {
        seq!['\\', '"']
    } else if c == '\\' {
        seq!['\\', '\\']
    } else if c == '\x08' {
        seq!['\\', 'b']
    } else if c == '\t' {
        seq!['\\', 't']
    } else if c == '\n' {
        seq!['\\', 'n']
    } else if c == '\x0c' {
        seq!['\\', 'f']
    } else if c == '\r' {
        seq!['\\', 'r']
    } else if (c as u32) < 0x20 {
        seq!['\\', 'u', '0', '0', hex_digit((c as u32) as int / 16), hex_digit((c as u32) as int % 16)]
    } else {
        seq![c]
    }
}

pub open spec fn escape_body(s: Seq<char>) -> Seq<char>
    decreases s.len(),
{
    if s.len() == 0 {
        seq![]
    } else {
        escape_char(s[0]) + escape_body(s.drop_first())
    }
}

/// A JSON string literal holding `s`.
pub open spec fn json_quoted(s: Seq<char>) -> Seq<char> {
    seq!['"'] + escape_body(s) + seq!['"']
}

/// Relies on `serde_json::to_string` for a `str`: it writes the string between
/// quotes with serde_json's escapes (`\"`, `\\`, `\b`, `\t`, `\n`, `\f`, `\r`,
/// `\u00xx` for the other control characters, lowercase hex) into a `Vec`,
/// which cannot fail.
#[verifier::external_body]
fn json_string(s: &str) -> (r: Option<String>)
    ensures
        r is Some,
        r matches Some(t) ==> t@ == json_quoted(s@),
{
    serde_json::to_string(s).ok()
}

/// Relies on `String::push`: the character is appended.
#[verifier::external_body]
fn push_char(s: &mut String, c: char)
    ensures
        final(s)@ == old(s)@.push(c),
{
    s.push(c)
}

pub open spec fn null_lit() -> Seq<char> {
    seq!['n', 'u', 'l', 'l']
}

pub open spec fn key_message_id() -> Seq<char> {
    seq!['{', '"', 'm', 'e', 's', 's', 'a', 'g', 'e', '_', 'i', 'd', '"', ':']
}

pub open spec fn key_subject() -> Seq<char> {
    seq![',', '"', 's', 'u', 'b', 'j', 'e', 'c', 't', '"', ':']
}

pub open spec fn field_text(o: Option<Seq<char>>) -> Seq<char> {
    match o {
        None => null_lit(),
        Some(s) => json_quoted(s),
    }
}

/// The compact JSON object `{"message_id":..,"subject":..}` of a record.
pub open spec fn encode_spec(m: MetaView) -> Seq<char> {
    key_message_id() + field_text(m.0) + key_subject() + field_text(m.1) + seq!['}']
}

pub open spec fn simple_unescape(c: char) -> Option<char> {
    if c == '"' {
        Some('"')
    } else if c == '\\' {
        Some('\\')
    } else if c == '/' {
        Some('/')
    } else if c == 'b' {
        Some('\x08')
    } else if c == 't' {
        Some('\t')
    } else if c == 'n' {
        Some('\n')
    } else if c == 'f' {
        Some('\x0c')
    } else if c == 'r' {
        Some('\r')
    } else {
        None
    }
}

pub open spec fn hex_value(c: char) -> Option<int> {
    if '0' <= c && c <= '9' {
        Some(c as int - 48)
    } else if 'a' <= c && c <= 'f' {
        Some(c as int - 87)
    } else if 'A' <= c && c <= 'F' {
        Some(c as int - 55)
    } else {
        None
    }
}

/// Reads the rest of a JSON string literal whose opening quote is already
/// consumed: the characters it holds, and how many input characters it spans
/// up to and including the closing quote. Escaped control characters are read
/// in the `\u00xx` form only.
pub open spec fn unescape(t: Seq<char>) -> Option<(Seq<char>, int)>
    decreases t.len(),
{
    if t.len() == 0 {
        None
    } else if t[0] == '"' {
        Some((seq![], 1))
    } else if t[0] == '\\' {
        if t.len() >= 2 && simple_unescape(t[1]) is Some {
            match unescape(t.subrange(2, t.len() as int)) {
                Some(p) => Some((seq![simple_unescape(t[1])->0] + p.0, p.1 + 2)),
                None => None,
            }
        } else if t.len() >= 6 && t[1] == 'u' && t[2] == '0' && t[3] == '0' && hex_value(t[4]) is Some
            && hex_value(t[5]) is Some && hex_value(t[4])->0 < 2 {
            match unescape(t.subrange(6, t.len() as int)) {
                Some(p) => Some(
                    (
                        seq![((16 * hex_value(t[4])->0 + hex_value(t[5])->0) as u32) as char] + p.0,
                        p.1 + 6,
                    ),
                ),
                None => None,
            }
        } else {
            None
        }
    } else if (t[0] as u32) < 0x20 {
        None
    } else {
        match unescape(t.subrange(1, t.len() as int)) {
            Some(p) => Some((seq![t[0]] + p.0, p.1 + 1)),
            None => None,
        }
    }
}

/// Reads `null` or a string literal at the start of `t`, with the number of
/// characters read.
pub open spec fn parse_field(t: Seq<char>) -> Option<(Option<Seq<char>>, int)> {
    if t.len() >= 4 && t.subrange(0, 4) == null_lit() {
        Some((None, 4))
    } else if t.len() >= 1 && t[0] == '"' {
        match unescape(t.subrange(1, t.len() as int)) {
            Some(p) => Some((Some(p.0), p.1 + 1)),
            None => None,
        }
    } else {
        None
    }
}

pub open spec fn is_ws(c: char) -> bool {
    c == ' ' || c == '\t' || c == '\n' || c == '\r'
}

/// `t` without its leading JSON white space.
pub open spec fn skip_ws(t: Seq<char>) -> Seq<char>
    decreases t.len(),
{
    if t.len() > 0 && is_ws(t[0]) {
        skip_ws(t.drop_first())
    } else {
        t
    }
}

/// A string literal at the start of `t`: its text and what follows it.
pub open spec fn string_lit(t: Seq<char>) -> Option<(Seq<char>, Seq<char>)> {
    if t.len() > 0 && t[0] == '"' {
        match unescape(t.subrange(1, t.len() as int)) {
            Some(p) => Some((p.0, t.subrange(1 + p.1, t.len() as int))),
            None => None,
        }
    } else {
        None
    }
}

/// `"key" : value` at the start of `t`, with what follows it, white space
/// skipped.
pub open spec fn member(t: Seq<char>) -> Option<(Seq<char>, Option<Seq<char>>, Seq<char>)> {
    match string_lit(t) {
        None => None,
        Some(k) => {
            let r = skip_ws(k.1);
            if r.len() > 0 && r[0] == ':' {
                let u = skip_ws(r.drop_first());
                match parse_field(u) {
                    Some(f) => Some((k.0, f.0, skip_ws(u.subrange(f.1, u.len() as int)))),
                    None => None,
                }
            } else {
                None
            }
        },
    }
}

pub open spec fn name_message_id() -> Seq<char> {
    seq!['m', 'e', 's', 's', 'a', 'g', 'e', '_', 'i', 'd']
}

pub open spec fn name_subject() -> Seq<char> {
    seq!['s', 'u', 'b', 'j', 'e', 'c', 't']
}

pub open spec fn known_name(k: Seq<char>) -> bool {
    k == name_message_id() || k == name_subject()
}

/// The record with the one field `k` set to `v`.
pub open spec fn one_field(k: Seq<char>, v: Option<Seq<char>>) -> MetaView {
    if k == name_message_id() {
        (v, None)
    } else {
        (None, v)
    }
}

/// `t` is `}` followed by white space alone.
pub open spec fn closes(t: Seq<char>) -> bool {
    t.len() > 0 && t[0] == '}' && skip_ws(t.drop_first()).len() == 0
}

/// The record that a JSON object with the members `message_id` and `subject`
/// (each a string or `null`, each at most once, in either order, either one
/// absent) stands for, white space allowed between tokens; `None` for any
/// other text. Escaped control characters are read in the `\u00xx` form only.
pub open spec fn decode_spec(raw: Seq<char>) -> Option<MetaView> {
    let t0 = skip_ws(raw);
    if t0.len() > 0 && t0[0] == '{' {
        object_body(skip_ws(t0.drop_first()))
    } else {
        None
    }
}

/// What follows the opening brace of a record.
pub open spec fn object_body(t1: Seq<char>) -> Option<MetaView> {
    if closes(t1) {
        Some((None, None))
    } else {
        match member(t1) {
            None => None,
            Some(m1) => after_member(m1),
        }
    }
}

/// What follows the first member of a record.
pub open spec fn after_member(m1: (Seq<char>, Option<Seq<char>>, Seq<char>)) -> Option<MetaView> {
    if !known_name(m1.0) {
        None
    } else if closes(m1.2) {
        Some(one_field(m1.0, m1.1))
    } else if m1.2.len() > 0 && m1.2[0] == ',' {
        second_member(m1, member(skip_ws(m1.2.drop_first())))
    } else {
        None
    }
}

/// A record of two members, the second one read as `o`.
pub open spec fn second_member(
    m1: (Seq<char>, Option<Seq<char>>, Seq<char>),
    o: Option<(Seq<char>, Option<Seq<char>>, Seq<char>)>,
) -> Option<MetaView> {
    match o {
        None => None,
        Some(m2) => {
            if known_name(m2.0) && m2.0 != m1.0 && closes(m2.2) {
                if m1.0 == name_message_id() {
                    Some((m1.1, m2.1))
                } else {
                    Some((m2.1, m1.1))
                }
            } else {
                None
            }
        },
    }
}

/// The position of the first separator in `s`, or its length when it holds none.
pub open spec fn first_sep(s: Seq<char>) -> int
    decreases s.len(),
{
    if s.len() == 0 {
        0
    } else if s[0] == SEP {
        0
    } else {
        1 + first_sep(s.drop_first())
    }
}

/// A recipient read as an address and an optional thread record. After the
/// first separator comes a record; where that does not read, a legacy uid, a
/// second separator and the record.
pub open spec fn split_spec(r: Seq<char>) -> (Seq<char>, Option<MetaView>) {
    let i = first_sep(r);
    if i >= r.len() {
        (r, None)
    } else {
        let addr = r.subrange(0, i);
        let rest = r.subrange(i + 1, r.len() as int);
        match decode_spec(rest) {
            Some(m) => (addr, Some(m)),
            None => {
                let j = first_sep(rest);
                if j >= rest.len() {
                    (addr, None)
                } else {
                    (addr, decode_spec(rest.subrange(j + 1, rest.len() as int)))
                }
            },
        }
    }
}

proof fn lemma_hex_digit(n: int)
    requires
        0 <= n < 16,
    ensures
        hex_value(hex_digit(n)) == Some(n),
{
}

proof fn lemma_unescape_escaped(s: Seq<char>, rest: Seq<char>)
    ensures
        unescape(escape_body(s) + seq!['"'] + rest) == Some((s, escape_body(s).len() + 1 as int)),
    decreases s.len(),
{
    let t = escape_body(s) + seq!['"'] + rest;
    if s.len() == 0 {
        assert(t[0] == '"');
        assert(s =~= seq![]);
    } else {
        let c = s[0];
        let e = escape_char(c);
        let tail = s.drop_first();
        lemma_unescape_escaped(tail, rest);
        let u = escape_body(tail) + seq!['"'] + rest;
        assert(t =~= e + u);
        assert(t.subrange(e.len() as int, t.len() as int) =~= u);
        assert(s =~= seq![c] + tail);
        if (c as u32) < 0x20 && c != '\x08' && c != '\t' && c != '\n' && c != '\x0c' && c != '\r' {
            let v = (c as u32) as int;
            lemma_hex_digit(v / 16);
            lemma_hex_digit(v % 16);
            assert(t[4] == hex_digit(v / 16));
            assert(t[5] == hex_digit(v % 16));
            assert(16 * (v / 16) + v % 16 == v);
            assert((16 * (v / 16) + v % 16) as u32 == c as u32);
            vstd::utf8::char_u32_cast(c, c as u32);
        }
    }
}

proof fn lemma_field(o: Option<Seq<char>>, rest: Seq<char>)
    ensures
        parse_field(field_text(o) + rest) == Some((o, field_text(o).len() as int)),
{
    let t = field_text(o) + rest;
    match o {
        None => {
            assert(t.subrange(0, 4) =~= null_lit());
        },
        Some(s) => {
            assert(t[0] == '"');
            assert(t.subrange(0, 4) != null_lit() || t.len() < 4) by {
                if t.len() >= 4 {
                    assert(t.subrange(0, 4)[0] == '"');
                }
            }
            lemma_unescape_escaped(s, rest);
            assert(t.subrange(1, t.len() as int) =~= escape_body(s) + seq!['"'] + rest);
        },
    }
}

pub open spec fn plain(s: Seq<char>) -> bool {
    forall|i: int| 0 <= i < s.len() ==> (#[trigger] s[i] as u32) >= 0x20 && s[i] != '"' && s[i] != '\\'
}

proof fn lemma_plain_escape(s: Seq<char>)
    requires
        plain(s),
    ensures
        escape_body(s) == s,
    decreases s.len(),
{
    if s.len() > 0 {
        assert(plain(s.drop_first())) by {
            assert forall|i: int| 0 <= i < s.drop_first().len() implies (#[trigger] s.drop_first()[i] as u32)
                >= 0x20 && s.drop_first()[i] != '"' && s.drop_first()[i] != '\\' by {
                assert(s.drop_first()[i] == s[i + 1]);
            }
        }
        lemma_plain_escape(s.drop_first());
        assert((s[0] as u32) >= 0x20);
        assert(s =~= seq![s[0]] + s.drop_first());
    }
}

proof fn lemma_member(k: Seq<char>, v: Option<Seq<char>>, rest: Seq<char>)
    ensures
        member(json_quoted(k) + seq![':'] + field_text(v) + rest) == Some((k, v, skip_ws(rest))),
{
    let f = field_text(v);
    let t = json_quoted(k) + seq![':'] + f + rest;
    let e = escape_body(k);
    assert(t[0] == '"');
    assert(t.subrange(1, t.len() as int) =~= e + seq!['"'] + (seq![':'] + f + rest));
    lemma_unescape_escaped(k, seq![':'] + f + rest);
    let r0 = t.subrange(e.len() + 2 as int, t.len() as int);
    assert(r0 =~= seq![':'] + f + rest);
    assert(skip_ws(r0) == r0);
    assert(r0.drop_first() =~= f + rest);
    assert(f[0] == 'n' || f[0] == '"');
    assert((f + rest)[0] == f[0]);
    assert(skip_ws(f + rest) == f + rest);
    lemma_field(v, rest);
    assert((f + rest).subrange(f.len() as int, (f + rest).len() as int) =~= rest);
}

proof fn lemma_second(m1: (Seq<char>, Option<Seq<char>>, Seq<char>), v2: Option<Seq<char>>)
    requires
        m1.0 == name_message_id(),
        m1.2 == seq![','] + json_quoted(name_subject()) + seq![':'] + field_text(v2) + seq!['}'],
    ensures
        after_member(m1) == Some((m1.1, v2)),
{
    let rr = m1.2;
    let n2 = name_subject();
    assert(rr[0] == ',');
    assert(!closes(rr));
    assert(rr.drop_first() =~= json_quoted(n2) + seq![':'] + field_text(v2) + seq!['}']);
    assert(rr.drop_first()[0] == '"');
    assert(skip_ws(rr.drop_first()) == rr.drop_first());
    lemma_member(n2, v2, seq!['}']);
    assert(skip_ws(seq!['}']) == seq!['}']);
    assert(seq!['}'].drop_first() =~= Seq::<char>::empty());
    assert(closes(seq!['}']));
    assert(m1.0 != n2) by {
        assert(m1.0.len() != n2.len());
    }
}

/// A record that holds a message id or a subject reads back from its encoding.
pub proof fn lemma_round_trip(m: MetaView)
    requires
        m.0 is Some || m.1 is Some,
    ensures
        decode_spec(encode_spec(m)) == Some(m),
{
    let f1 = field_text(m.0);
    let f2 = field_text(m.1);
    let n1 = name_message_id();
    let n2 = name_subject();
    lemma_plain_escape(n1);
    lemma_plain_escape(n2);
    assert(key_message_id() =~= seq!['{'] + json_quoted(n1) + seq![':']);
    assert(key_subject() =~= seq![','] + json_quoted(n2) + seq![':']);
    let raw = encode_spec(m);
    let rr = seq![','] + json_quoted(n2) + seq![':'] + f2 + seq!['}'];
    assert(raw =~= seq!['{'] + (json_quoted(n1) + seq![':'] + f1 + rr));
    let t1 = raw.drop_first();
    assert(t1 =~= json_quoted(n1) + seq![':'] + f1 + rr);
    assert(raw[0] == '{');
    assert(skip_ws(raw) == raw);
    assert(t1[0] == '"');
    assert(skip_ws(t1) == t1);
    lemma_member(n1, m.0, rr);
    assert(rr[0] == ',');
    assert(skip_ws(rr) == rr);
    lemma_second((n1, m.0, rr), m.1);
    assert(!closes(t1));
}

proof fn lemma_first_sep_at(s: Seq<char>, i: int)
    requires
        0 <= i <= s.len(),
        i == s.len() || s[i] == SEP,
        forall|j: int| 0 <= j < i ==> s[j] != SEP,
    ensures
        first_sep(s) == i,
    decreases i,
{
    if i > 0 {
        lemma_first_sep_at(s.drop_first(), i - 1);
    }
}

/// A recipient without a separator is a bare address with no thread record.
pub proof fn lemma_no_separator(addr: Seq<char>)
    requires
        forall|j: int| 0 <= j < addr.len() ==> addr[j] != SEP,
    ensures
        split_spec(addr) == (addr, None::<MetaView>),
{
    lemma_first_sep_at(addr, addr.len() as int);
}

proof fn lemma_decode_needs_brace(raw: Seq<char>)
    requires
        raw.len() > 0,
        raw[0] != '{',
        !is_ws(raw[0]),
    ensures
        decode_spec(raw) is None,
{
    assert(skip_ws(raw) == raw);
}

/// A legacy recipient `addr SEP uid SEP record` reads as the address and the
/// record, the uid being dropped.
pub proof fn lemma_legacy_recipient(addr: Seq<char>, uid: Seq<char>, m: MetaView)
    requires
        m.0 is Some || m.1 is Some,
        forall|j: int| 0 <= j < addr.len() ==> addr[j] != SEP,
        uid.len() > 0,
        forall|j: int| 0 <= j < uid.len() ==> '0' <= #[trigger] uid[j] <= '9',
    ensures
        split_spec(addr + seq![SEP] + uid + seq![SEP] + encode_spec(m)) == (addr, Some(m)),
{
    let r = addr + seq![SEP] + uid + seq![SEP] + encode_spec(m);
    assert forall|j: int| 0 <= j < addr.len() implies r[j] != SEP by {
        assert(r[j] == addr[j]);
    }
    lemma_first_sep_at(r, addr.len() as int);
    assert(r.subrange(0, addr.len() as int) =~= addr);
    let rest = r.subrange(addr.len() + 1 as int, r.len() as int);
    assert(rest =~= uid + seq![SEP] + encode_spec(m));
    assert(rest[0] == uid[0]);
    lemma_decode_needs_brace(rest);
    assert forall|j: int| 0 <= j < uid.len() implies rest[j] != SEP by {
        assert(rest[j] == uid[j]);
    }
    lemma_first_sep_at(rest, uid.len() as int);
    assert(rest.subrange(uid.len() + 1 as int, rest.len() as int) =~= encode_spec(m));
    lemma_round_trip(m);
}

pub open spec fn lift(prefix: Seq<char>, k: int, r: Option<(Seq<char>, int)>) -> Option<(Seq<char>, int)> {
    match r {
        None => None,
        Some(p) => Some((prefix + p.0, p.1 + k)),
    }
}

proof fn lemma_lift(prefix: Seq<char>, c: char, k: int, k2: int, r: Option<(Seq<char>, int)>)
    ensures
        lift(
            prefix,
            k,
            match r {
                Some(p) => Some((seq![c] + p.0, p.1 + k2)),
                None => None,
            },
        ) == lift(prefix.push(c), k + k2, r),
{
    if let Some(p) = r {
        assert(prefix + (seq![c] + p.0) =~= prefix.push(c) + p.0);
    }
}

fn simple_unescape_exec(c: char) -> (r: Option<char>)
    ensures
        r == simple_unescape(c),
{
    if c == '"' {
        Some('"')
    } else if c == '\\' {
        Some('\\')
    } else if c == '/' {
        Some('/')
    } else if c == 'b' {
        Some('\x08')
    } else if c == 't' {
        Some('\t')
    } else if c == 'n' {
        Some('\n')
    } else if c == 'f' {
        Some('\x0c')
    } else if c == 'r' {
        Some('\r')
    } else {
        None
    }
}

fn hex_value_exec(c: char) -> (r: Option<u32>)
    ensures
        match r {
            None => hex_value(c) is None,
            Some(v) => hex_value(c) == Some(v as int) && v < 16,
        },
{
    if '0' <= c && c <= '9' {
        Some(c as u32 - 48)
    } else if 'a' <= c && c <= 'f' {
        Some(c as u32 - 87)
    } else if 'A' <= c && c <= 'F' {
        Some(c as u32 - 55)
    } else {
        None
    }
}

/// Reads a JSON string literal in `raw` whose opening quote ends before
/// `start`; gives the text and the position after the closing quote.
fn unescape_at(raw: &str, start: usize) -> (r: Option<(String, usize)>)
    requires
        start <= raw@.len(),
    ensures
        match r {
            None => unescape(raw@.subrange(start as int, raw@.len() as int)) is None,
            Some((s, end)) => {
                &&& start < end <= raw@.len()
                &&& unescape(raw@.subrange(start as int, raw@.len() as int)) == Some(
                    (s@, end - start),
                )
            },
        },
{
    let n = raw.unicode_len();
    let mut out = String::new();
    let mut i: usize = start;
    assert(out@ =~= seq![]);
    assert(lift(seq![], 0, unescape(raw@.subrange(start as int, n as int))) =~= unescape(
        raw@.subrange(start as int, n as int),
    )) by {
        if let Some(p) = unescape(raw@.subrange(start as int, n as int)) {
            assert(seq![] + p.0 =~= p.0);
        }
    }
    loop
        invariant
            n == raw@.len(),
            start <= i <= n,
            unescape(raw@.subrange(start as int, n as int)) == lift(
                out@,
                i - start,
                unescape(raw@.subrange(i as int, n as int)),
            ),
        decreases n - i,
    {
        let ghost t = raw@.subrange(i as int, n as int);
        if i >= n {
            return None;
        }
        let c = raw.get_char(i);
        assert(t[0] == c);
        if c == '"' {
            assert(out@ + seq![] =~= out@);
            return Some((out, i + 1));
        } else if c == '\\' {
            if i + 1 >= n {
                return None;
            }
            let d = raw.get_char(i + 1);
            assert(t[1] == d);
            match simple_unescape_exec(d) {
                Some(e) => {
                    assert(t.subrange(2, t.len() as int) =~= raw@.subrange(i + 2, n as int));
                    proof {
                        lemma_lift(out@, e, i - start, 2, unescape(t.subrange(2, t.len() as int)));
                    }
                    push_char(&mut out, e);
                    i = i + 2;
                },
                None => {
                    if n - i <= 5 || d != 'u' || raw.get_char(i + 2) != '0' || raw.get_char(i + 3)
                        != '0' {
                        return None;
                    }
                    let h = hex_value_exec(raw.get_char(i + 4));
                    let l = hex_value_exec(raw.get_char(i + 5));
                    assert(t[4] == raw@[i + 4]);
                    assert(t[5] == raw@[i + 5]);
                    match (h, l) {
                        (Some(hv), Some(lv)) => {
                            if hv >= 2 {
                                return None;
                            }
                            let v: u32 = 16 * hv + lv;
                            let e = (v as u8) as char;
                            assert(e as u32 == v);
                            proof {
                                vstd::utf8::char_u32_cast(e, v);
                            }
                            assert(t.subrange(6, t.len() as int) =~= raw@.subrange(
                                i + 6,
                                n as int,
                            ));
                            proof {
                                lemma_lift(
                                    out@,
                                    e,
                                    i - start,
                                    6,
                                    unescape(t.subrange(6, t.len() as int)),
                                );
                            }
                            push_char(&mut out, e);
                            i = i + 6;
                        },
                        _ => {
                            return None;
                        },
                    }
                },
            }
        } else if (c as u32) < 0x20 {
            return None;
        } else {
            assert(t.subrange(1, t.len() as int) =~= raw@.subrange(i + 1, n as int));
            proof {
                lemma_lift(out@, c, i - start, 1, unescape(t.subrange(1, t.len() as int)));
            }
            push_char(&mut out, c);
            i = i + 1;
        }
    }
}

/// Whether `lit` stands in `raw` at position `i`.
fn starts_with_at(raw: &str, i: usize, lit: &str) -> (r: bool)
    requires
        i <= raw@.len(),
    ensures
        r == (i + lit@.len() <= raw@.len() && raw@.subrange(i as int, i + lit@.len()) == lit@),
{
    let n = raw.unicode_len();
    let m = lit.unicode_len();
    if m > n - i {
        return false;
    }
    let mut k: usize = 0;
    while k < m
        invariant
            n == raw@.len(),
            m == lit@.len(),
            i + m <= n,
            0 <= k <= m,
            forall|j: int| 0 <= j < k ==> raw@[i + j] == lit@[j],
        decreases m - k,
    {
        if raw.get_char(i + k) != lit.get_char(k) {
            assert(raw@.subrange(i as int, i + lit@.len())[k as int] != lit@[k as int]);
            return false;
        }
        k = k + 1;
    }
    assert(raw@.subrange(i as int, i + lit@.len()) =~= lit@);
    true
}

/// Reads `null` or a string literal at position `i` of `raw`.
fn parse_field_at(raw: &str, i: usize) -> (r: Option<(Option<String>, usize)>)
    requires
        i <= raw@.len(),
    ensures
        match r {
            None => parse_field(raw@.subrange(i as int, raw@.len() as int)) is None,
            Some((v, end)) => {
                &&& i < end <= raw@.len()
                &&& parse_field(raw@.subrange(i as int, raw@.len() as int)) == Some(
                    (opt_view(v), end - i),
                )
            },
        },
{
    let n = raw.unicode_len();
    let ghost t = raw@.subrange(i as int, raw@.len() as int);
    proof {
        reveal_strlit("null");
    }
    assert("null"@ =~= null_lit());
    if starts_with_at(raw, i, "null") {
        assert(t.subrange(0, 4) =~= raw@.subrange(i as int, i + 4));
        return Some((None, i + 4));
    }
    proof {
        if t.len() >= 4 {
            assert(t.subrange(0, 4) =~= raw@.subrange(i as int, i + 4));
        }
    }
    if i < n && raw.get_char(i) == '"' {
        assert(t.subrange(1, t.len() as int) =~= raw@.subrange(i + 1, raw@.len() as int));
        match unescape_at(raw, i + 1) {
            Some((s, end)) => Some((Some(s), end)),
            None => None,
        }
    } else {
        None
    }
}

fn append_field(out: &mut String, v: &Option<String>)
    ensures
        final(out)@ == old(out)@ + field_text(opt_view(*v)),
{
    proof {
        reveal_strlit("null");
    }
    match v {
        None => {
            out.append("null");
            assert("null"@ =~= null_lit());
        },
        Some(s) => {
            match json_string(s.as_str()) {
                Some(q) => out.append(q.as_str()),
                None => {},
            }
        },
    }
}


/// The position of the first separator in `s` from `from` on, or its length.
fn find_sep(s: &str, from: usize) -> (r: usize)
    requires
        from <= s@.len(),
    ensures
        r == from + first_sep(s@.subrange(from as int, s@.len() as int)),
        r <= s@.len(),
{
    let n = s.unicode_len();
    let mut i: usize = from;
    while i < n && s.get_char(i) != SEP
        invariant
            n == s@.len(),
            from <= i <= n,
            first_sep(s@.subrange(from as int, n as int)) == (i - from) + first_sep(
                s@.subrange(i as int, n as int),
            ),
        decreases n - i,
    {
        assert(s@.subrange(i as int, n as int).drop_first() =~= s@.subrange(i + 1, n as int));
        i = i + 1;
    }
    i
}

fn skip_ws_at(raw: &str, i: usize) -> (r: usize)
    requires
        i <= raw@.len(),
    ensures
        i <= r <= raw@.len(),
        raw@.subrange(r as int, raw@.len() as int) == skip_ws(raw@.subrange(i as int, raw@.len() as int)),
{
    let n = raw.unicode_len();
    let mut j: usize = i;
    while j < n && (raw.get_char(j) == ' ' || raw.get_char(j) == '\t' || raw.get_char(j) == '\n'
        || raw.get_char(j) == '\r')
        invariant
            n == raw@.len(),
            i <= j <= n,
            skip_ws(raw@.subrange(i as int, n as int)) == skip_ws(raw@.subrange(j as int, n as int)),
        decreases n - j,
    {
        assert(raw@.subrange(j as int, n as int).drop_first() =~= raw@.subrange(j + 1, n as int));
        j = j + 1;
    }
    j
}

/// Whether the text at `i` is `}` followed by white space alone.
fn closes_at(raw: &str, i: usize) -> (r: bool)
    requires
        i <= raw@.len(),
    ensures
        r == closes(raw@.subrange(i as int, raw@.len() as int)),
{
    let n = raw.unicode_len();
    if i >= n || raw.get_char(i) != '}' {
        return false;
    }
    assert(raw@.subrange(i as int, n as int).drop_first() =~= raw@.subrange(i + 1, n as int));
    let e = skip_ws_at(raw, i + 1);
    e == n
}

/// Whether `k` is the member name `message_id` (`id`) or `subject` (not `id`).
fn is_name(k: &str, id: bool) -> (r: bool)
    ensures
        r == (k@ == if id {
            name_message_id()
        } else {
            name_subject()
        }),
{
    proof {
        reveal_strlit("message_id");
        reveal_strlit("subject");
    }
    assert("message_id"@ =~= name_message_id());
    assert("subject"@ =~= name_subject());
    assert(k@.subrange(0, k@.len() as int) =~= k@);
    if id {
        k.unicode_len() == 10 && starts_with_at(k, 0, "message_id")
    } else {
        k.unicode_len() == 7 && starts_with_at(k, 0, "subject")
    }
}

/// Reads `"key" : value` at position `i`, with the position after the white
/// space that follows it.
fn member_at(raw: &str, i: usize) -> (r: Option<(String, Option<String>, usize)>)
    requires
        i <= raw@.len(),
    ensures
        match r {
            None => member(raw@.subrange(i as int, raw@.len() as int)) is None,
            Some((k, v, e)) => {
                &&& e <= raw@.len()
                &&& member(raw@.subrange(i as int, raw@.len() as int)) == Some(
                    (k@, opt_view(v), raw@.subrange(e as int, raw@.len() as int)),
                )
            },
        },
{
    let n = raw.unicode_len();
    let ghost t = raw@.subrange(i as int, n as int);
    if i >= n || raw.get_char(i) != '"' {
        return None;
    }
    assert(t.subrange(1, t.len() as int) =~= raw@.subrange(i + 1, n as int));
    let (k, e0) = match unescape_at(raw, i + 1) {
        Some(p) => p,
        None => {
            return None;
        },
    };
    assert(t.subrange(1 + (e0 - i - 1), t.len() as int) =~= raw@.subrange(e0 as int, n as int));
    let c = skip_ws_at(raw, e0);
    if c >= n || raw.get_char(c) != ':' {
        return None;
    }
    assert(raw@.subrange(c as int, n as int).drop_first() =~= raw@.subrange(c + 1, n as int));
    let u = skip_ws_at(raw, c + 1);
    let (v, f) = match parse_field_at(raw, u) {
        Some(p) => p,
        None => {
            return None;
        },
    };
    assert(raw@.subrange(u as int, n as int).subrange(f - u, n - u) =~= raw@.subrange(f as int, n as int));
    let e = skip_ws_at(raw, f);
    Some((k, v, e))
}

impl EmailChannel {
    /// Reads a thread record from a JSON object with the members `message_id`
    /// and `subject`.
    pub fn decode_thread_meta(raw: &str) -> (r: Option<EmailThreadMeta>)
        ensures
            opt_meta_view(r) == decode_spec(raw@),
    {
        let n = raw.unicode_len();
        assert(raw@.subrange(0, n as int) =~= raw@);
        let i0 = skip_ws_at(raw, 0);
        if i0 >= n || raw.get_char(i0) != '{' {
            return None;
        }
        assert(raw@.subrange(i0 as int, n as int).drop_first() =~= raw@.subrange(i0 + 1, n as int));
        let i1 = skip_ws_at(raw, i0 + 1);
        if closes_at(raw, i1) {
            return Some(EmailThreadMeta { message_id: None, subject: None });
        }
        let (k1, v1, e1) = match member_at(raw, i1) {
            Some(m) => m,
            None => {
                return None;
            },
        };
        let first_is_id = is_name(k1.as_str(), true);
        if !first_is_id && !is_name(k1.as_str(), false) {
            return None;
        }
        if closes_at(raw, e1) {
            return if first_is_id {
                Some(EmailThreadMeta { message_id: v1, subject: None })
            } else {
                Some(EmailThreadMeta { message_id: None, subject: v1 })
            };
        }
        if e1 >= n || raw.get_char(e1) != ',' {
            return None;
        }
        assert(raw@.subrange(e1 as int, n as int).drop_first() =~= raw@.subrange(e1 + 1, n as int));
        let i2 = skip_ws_at(raw, e1 + 1);
        let (k2, v2, e2) = match member_at(raw, i2) {
            Some(m) => m,
            None => {
                return None;
            },
        };
        let second_is_id = is_name(k2.as_str(), true);
        let second_known = second_is_id || is_name(k2.as_str(), false);
        if !second_known || second_is_id == first_is_id || !closes_at(raw, e2) {
            return None;
        }
        if first_is_id {
            Some(EmailThreadMeta { message_id: v1, subject: v2 })
        } else {
            Some(EmailThreadMeta { message_id: v2, subject: v1 })
        }
    }

    /// Writes a record as the compact JSON object
    /// `{"message_id":..,"subject":..}`; nothing for a record with neither field.
    pub fn encode_thread_meta(meta: &EmailThreadMeta) -> (r: Option<String>)
        ensures
            meta@.0 is None && meta@.1 is None ==> r is None,
            meta@.0 is Some || meta@.1 is Some ==> (r matches Some(t) && t@ == encode_spec(meta@)),
    {
        if meta.message_id.is_none() && meta.subject.is_none() {
            return None;
        }
        proof {
            reveal_strlit("{\"message_id\":");
            reveal_strlit(",\"subject\":");
            reveal_strlit("}");
        }
        let mut out = String::from_str("{\"message_id\":");
        append_field(&mut out, &meta.message_id);
        out.append(",\"subject\":");
        append_field(&mut out, &meta.subject);
        out.append("}");
        assert(out@ =~= encode_spec(meta@));
        Some(out)
    }

    /// Splits a recipient into its address and the thread record after the
    /// separator, if any; reads the legacy `address SEP uid SEP record` form too.
    pub fn parse_recipient_and_thread_meta(recipient: &str) -> (r: (&str, Option<EmailThreadMeta>))
        ensures
            (r.0@, opt_meta_view(r.1)) == split_spec(recipient@),
    {
        let n = recipient.unicode_len();
        let i = find_sep(recipient, 0);
        assert(recipient@.subrange(0, n as int) =~= recipient@);
        if i >= n {
            return (recipient, None);
        }
        let email = recipient.substring_char(0, i);
        let raw_meta = recipient.substring_char(i + 1, n);
        if let Some(meta) = EmailChannel::decode_thread_meta(raw_meta) {
            return (email, Some(meta));
        }
        let m = raw_meta.unicode_len();
        let j = find_sep(raw_meta, 0);
        assert(raw_meta@.subrange(0, m as int) =~= raw_meta@);
        if j >= m {
            return (email, None);
        }
        let json_meta = raw_meta.substring_char(j + 1, m);
        (email, EmailChannel::decode_thread_meta(json_meta))
    }
}

} // verus!
