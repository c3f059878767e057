//! The canonical wire form of a message list.
//!
//! A list of messages travels as a JSON-shaped text: an array of records,
//! `[{"content":"...","level":"info"},...]`, with no whitespace, the two
//! keys always in this order, the level spelled by its lower-case name, and
//! `"` and `\` escaped inside string values. Both storage backends move
//! exactly this text; it is only ever produced by this library, so the
//! decoder accepts exactly the canonical form and nothing else.

use crate::level::{spec_level_name, Level};
use crate::mailbox::views_of;
use crate::message::{FlashMessage, MessageView};
use crate::strutil::{chars_to_string, str_chars};
use vstd::prelude::*;

verus! {

/// How one character appears inside a JSON string value.
pub open spec fn json_escape_char(c: char) -> Seq<char> {
    if c == '"' {
        seq!['\\', '"']
    } else if c == '\\' {
        seq!['\\', '\\']
    } else {
        seq![c]
    }
}

/// The body of a JSON string value: each character escaped, concatenated.
pub open spec fn json_string_body(s: Seq<char>) -> Seq<char>
    decreases s.len(),
{
    if s.len() == 0 {
        Seq::empty()
    } else {
        json_escape_char(s[0]) + json_string_body(s.skip(1))
    }
}

/// A JSON string value: the escaped body between double quotes.
pub open spec fn json_string(s: Seq<char>) -> Seq<char> {
    seq!['"'] + json_string_body(s) + seq!['"']
}

/// The opening of a message record, up to the content value.
pub open spec fn content_key() -> Seq<char> {
    seq!['{', '"', 'c', 'o', 'n', 't', 'e', 'n', 't', '"', ':']
}

/// The middle of a message record, between the two values.
pub open spec fn level_key() -> Seq<char> {
    seq![',', '"', 'l', 'e', 'v', 'e', 'l', '"', ':']
}

/// One message as a record of its content and its level name.
pub open spec fn json_of_message(m: MessageView) -> Seq<char> {
    content_key() + json_string(m.content) + level_key() + json_string(spec_level_name(m.level))
        + seq!['}']
}

/// The comma-joined records of a message list.
pub open spec fn json_of_messages_body(ms: Seq<MessageView>) -> Seq<char>
    decreases ms.len(),
{
    if ms.len() == 0 {
        Seq::empty()
    } else if ms.len() == 1 {
        json_of_message(ms[0])
    } else {
        json_of_message(ms[0]) + seq![','] + json_of_messages_body(ms.skip(1))
    }
}

/// A message list as a JSON-shaped array.
pub open spec fn json_of_messages(ms: Seq<MessageView>) -> Seq<char> {
    seq!['['] + json_of_messages_body(ms) + seq![']']
}

/// Escaping distributes over concatenation.
proof fn lemma_string_body_concat(a: Seq<char>, b: Seq<char>)
    ensures
        json_string_body(a + b) == json_string_body(a) + json_string_body(b),
    decreases a.len(),
{
    if a.len() == 0 {
        assert(a + b =~= b);
        assert(json_string_body(a) + json_string_body(b) =~= json_string_body(b));
    } else {
        lemma_string_body_concat(a.skip(1), b);
        assert((a + b).skip(1) =~= a.skip(1) + b);
        assert(json_escape_char(a[0]) + (json_string_body(a.skip(1)) + json_string_body(b))
            =~= (json_escape_char(a[0]) + json_string_body(a.skip(1))) + json_string_body(b));
    }
}

/// The escaped body of a single character is its escape.
proof fn lemma_string_body_singleton(c: char)
    ensures
        json_string_body(seq![c]) == json_escape_char(c),
{
    assert(seq![c].len() == 1);
    assert(seq![c][0] == c);
    assert(seq![c].skip(1) =~= Seq::<char>::empty());
    assert(json_string_body(Seq::<char>::empty()) =~= Seq::<char>::empty());
    assert(json_string_body(seq![c]) =~= json_escape_char(c) + Seq::<char>::empty());
    assert(json_escape_char(c) + Seq::<char>::empty() =~= json_escape_char(c));
}

/// Escaping one more character extends the escaped body.
proof fn lemma_string_body_snoc(s: Seq<char>, c: char)
    ensures
        json_string_body(s.push(c)) == json_string_body(s) + json_escape_char(c),
{
    lemma_string_body_concat(s, seq![c]);
    assert(s.push(c) =~= s + seq![c]);
    lemma_string_body_singleton(c);
}

/// One more record extends the comma-joined body.
proof fn lemma_messages_body_snoc(ms: Seq<MessageView>, m: MessageView)
    ensures
        ms.len() == 0 ==> json_of_messages_body(ms.push(m)) == json_of_message(m),
        ms.len() > 0 ==> json_of_messages_body(ms.push(m)) == json_of_messages_body(ms)
            + seq![','] + json_of_message(m),
    decreases ms.len(),
{
    if ms.len() == 0 {
        assert(ms.push(m)[0] == m);
        assert(json_of_messages_body(ms.push(m)) == json_of_message(m));
    } else {
        lemma_messages_body_snoc(ms.skip(1), m);
        assert(ms.push(m).skip(1) =~= ms.skip(1).push(m));
        assert(ms.push(m)[0] == ms[0]);
        if ms.len() == 1 {
            assert(ms.skip(1).len() == 0);
            assert(json_of_messages_body(ms.push(m)) == json_of_message(ms[0]) + seq![',']
                + json_of_message(m));
            assert(json_of_messages_body(ms) == json_of_message(ms[0]));
        } else {
            assert(json_of_message(ms[0]) + seq![','] + (json_of_messages_body(ms.skip(1))
                + seq![','] + json_of_message(m)) =~= (json_of_message(ms[0]) + seq![',']
                + json_of_messages_body(ms.skip(1))) + seq![','] + json_of_message(m));
        }
    }
}

/// The level named by a lower-case name, if any.
pub open spec fn level_of_name(s: Seq<char>) -> Option<Level> {
    if s == spec_level_name(Level::Debug) {
        Some(Level::Debug)
    } else if s == spec_level_name(Level::Info) {
        Some(Level::Info)
    } else if s == spec_level_name(Level::Success) {
        Some(Level::Success)
    } else if s == spec_level_name(Level::Warning) {
        Some(Level::Warning)
    } else if s == spec_level_name(Level::Error) {
        Some(Level::Error)
    } else {
        None
    }
}

/// `p` opens `t`.
pub open spec fn has_prefix(t: Seq<char>, p: Seq<char>) -> bool {
    t.len() >= p.len() && t.take(p.len() as int) == p
}

/// Parse the escaped body of a string value up to and including its closing
/// quote: the decoded content and the count of characters consumed.
pub open spec fn spec_parse_string_body(t: Seq<char>) -> Option<(Seq<char>, int)>
    decreases t.len(),
{
    if t.len() == 0 {
        None
    } else if t[0] == '"' {
        Some((Seq::empty(), 1))
    } else if t[0] == '\\' {
        if t.len() >= 2 && (t[1] == '"' || t[1] == '\\') {
            match spec_parse_string_body(t.skip(2)) {
                Some(p) => Some((seq![t[1]] + p.0, p.1 + 2)),
                None => None,
            }
        } else {
            None
        }
    } else {
        match spec_parse_string_body(t.skip(1)) {
            Some(p) => Some((seq![t[0]] + p.0, p.1 + 1)),
            None => None,
        }
    }
}

/// Parse a whole string value, quotes included.
pub open spec fn spec_parse_string(t: Seq<char>) -> Option<(Seq<char>, int)> {
    if t.len() >= 1 && t[0] == '"' {
        match spec_parse_string_body(t.skip(1)) {
            Some(p) => Some((p.0, p.1 + 1)),
            None => None,
        }
    } else {
        None
    }
}

/// Parse one message record.
pub open spec fn spec_parse_message(t: Seq<char>) -> Option<(MessageView, int)> {
    if has_prefix(t, content_key()) {
        match spec_parse_string(t.skip(11)) {
            Some(pc) => {
                if 0 <= pc.1 && 11 + pc.1 <= t.len() && has_prefix(t.skip(11 + pc.1), level_key()) {
                    match spec_parse_string(t.skip(11 + pc.1 + 9)) {
                        Some(pl) => {
                            match level_of_name(pl.0) {
                                Some(l) => {
                                    let end = 11 + pc.1 + 9 + pl.1;
                                    if 0 <= pl.1 && end + 1 <= t.len() && t[end] == '}' {
                                        Some((MessageView { content: pc.0, level: l }, end + 1))
                                    } else {
                                        None
                                    }
                                },
                                None => None,
                            }
                        },
                        None => None,
                    }
                } else {
                    None
                }
            },
            None => None,
        }
    } else {
        None
    }
}

/// Parse the tail of an array: zero or more `,`-prefixed records, then the
/// closing bracket, which must end the text.
pub open spec fn spec_parse_messages_rest(t: Seq<char>) -> Option<Seq<MessageView>>
    decreases t.len(),
{
    if t.len() == 0 {
        None
    } else if t[0] == ']' {
        if t.len() == 1 {
            Some(Seq::empty())
        } else {
            None
        }
    } else if t[0] == ',' {
        match spec_parse_message(t.skip(1)) {
            Some(pm) => {
                if 1 <= pm.1 && 1 + pm.1 <= t.len() {
                    match spec_parse_messages_rest(t.skip(1 + pm.1)) {
                        Some(ms) => Some(seq![pm.0] + ms),
                        None => None,
                    }
                } else {
                    None
                }
            },
            None => None,
        }
    } else {
        None
    }
}

/// Parse a whole array of message records; the text must hold nothing else.
pub open spec fn spec_parse_messages(t: Seq<char>) -> Option<Seq<MessageView>> {
    if t.len() >= 2 && t[0] == '[' {
        if t[1] == ']' {
            if t.len() == 2 {
                Some(Seq::empty())
            } else {
                None
            }
        } else {
            match spec_parse_message(t.skip(1)) {
                Some(pm) => {
                    if 1 <= pm.1 && 1 + pm.1 <= t.len() {
                        match spec_parse_messages_rest(t.skip(1 + pm.1)) {
                            Some(ms) => Some(seq![pm.0] + ms),
                            None => None,
                        }
                    } else {
                        None
                    }
                },
                None => None,
            }
        }
    } else {
        None
    }
}

/// Parsing a string body inverts escaping, whatever follows the value.
proof fn lemma_parse_string_body_inverse(content: Seq<char>, rest: Seq<char>)
    ensures
        spec_parse_string_body(json_string_body(content) + seq!['"'] + rest) == Some(
            (content, json_string_body(content).len() as int + 1),
        ),
    decreases content.len(),
{
    let t = json_string_body(content) + seq!['"'] + rest;
    if content.len() == 0 {
        assert(json_string_body(content) =~= Seq::<char>::empty());
        assert(t =~= seq!['"'] + rest);
        assert(t[0] == '"');
        assert(content =~= Seq::<char>::empty());
    } else {
        let c = content[0];
        let cs = content.skip(1);
        lemma_parse_string_body_inverse(cs, rest);
        assert(json_string_body(content) == json_escape_char(c) + json_string_body(cs));
        let t_in = json_string_body(cs) + seq!['"'] + rest;
        if c == '"' || c == '\\' {
            assert(json_escape_char(c).len() == 2);
            assert(t[0] == '\\');
            assert(t[1] == c);
            assert(t.skip(2) =~= t_in);
            assert(seq![t[1]] + cs =~= content);
        } else {
            assert(json_escape_char(c) =~= seq![c]);
            assert(t[0] == c);
            assert(t.skip(1) =~= t_in);
            assert(seq![t[0]] + cs =~= content);
        }
    }
}

/// A parsed string body is the escaped form of its result.
proof fn lemma_parse_string_body_sound(t: Seq<char>)
    requires
        spec_parse_string_body(t) is Some,
    ensures
        ({
            let (c, n) = spec_parse_string_body(t)->Some_0;
            &&& 1 <= n <= t.len()
            &&& n == json_string_body(c).len() + 1
            &&& t.take(n) == json_string_body(c) + seq!['"']
        }),
    decreases t.len(),
{
    let (c, n) = spec_parse_string_body(t)->Some_0;
    if t[0] == '"' {
        assert(json_string_body(c) =~= Seq::<char>::empty());
        assert(t.take(1) =~= seq![t[0]]);
        assert(t.take(n) =~= json_string_body(c) + seq!['"']);
    } else if t[0] == '\\' {
        lemma_parse_string_body_sound(t.skip(2));
        let (c2, n2) = spec_parse_string_body(t.skip(2))->Some_0;
        assert(c == seq![t[1]] + c2);
        lemma_string_body_concat(seq![t[1]], c2);
        lemma_string_body_singleton(t[1]);
        assert(json_escape_char(t[1]) =~= seq!['\\', t[1]]);
        assert(t.skip(2).take(n2) =~= t.take(n).skip(2));
        assert(t.take(n) =~= seq!['\\', t[1]] + t.skip(2).take(n2));
        assert(t.take(n) =~= json_string_body(c) + seq!['"']);
    } else {
        lemma_parse_string_body_sound(t.skip(1));
        let (c2, n2) = spec_parse_string_body(t.skip(1))->Some_0;
        assert(c == seq![t[0]] + c2);
        lemma_string_body_concat(seq![t[0]], c2);
        lemma_string_body_singleton(t[0]);
        assert(json_escape_char(t[0]) =~= seq![t[0]]);
        assert(t.skip(1).take(n2) =~= t.take(n).skip(1));
        assert(t.take(n) =~= seq![t[0]] + t.skip(1).take(n2));
        assert(t.take(n) =~= json_string_body(c) + seq!['"']);
    }
}

/// Naming a level and reading the name back are inverse.
proof fn lemma_level_name_inverse(l: Level)
    ensures
        level_of_name(spec_level_name(l)) == Some(l),
{
    let dn = spec_level_name(Level::Debug);
    let inn = spec_level_name(Level::Info);
    let sn = spec_level_name(Level::Success);
    let wn = spec_level_name(Level::Warning);
    let en = spec_level_name(Level::Error);
    assert(dn.len() == 5 && inn.len() == 4 && sn.len() == 7 && wn.len() == 7 && en.len() == 5);
    assert(dn[0] == 'd' && en[0] == 'e' && sn[0] == 's' && wn[0] == 'w');
    assert(dn != en) by {
        assert(dn[0] != en[0]);
    }
    assert(sn != wn) by {
        assert(sn[0] != wn[0]);
    }
}

/// Parsing a string value inverts quoting and escaping.
proof fn lemma_parse_string_inverse(content: Seq<char>, rest: Seq<char>)
    ensures
        spec_parse_string(json_string(content) + rest) == Some(
            (content, json_string(content).len() as int),
        ),
        json_string(content).len() == json_string_body(content).len() + 2,
{
    let t = json_string(content) + rest;
    assert(t[0] == '"');
    assert(t.len() >= 1);
    lemma_parse_string_body_inverse(content, rest);
    assert(t.skip(1) =~= json_string_body(content) + seq!['"'] + rest);
}

/// A parsed string value is the quoted, escaped form of its result.
proof fn lemma_parse_string_sound(t: Seq<char>)
    requires
        spec_parse_string(t) is Some,
    ensures
        ({
            let (c, n) = spec_parse_string(t)->Some_0;
            &&& 2 <= n <= t.len()
            &&& n == json_string(c).len()
            &&& t.take(n) == json_string(c)
        }),
{
    let (c, n) = spec_parse_string(t)->Some_0;
    lemma_parse_string_body_sound(t.skip(1));
    let (c2, n2) = spec_parse_string_body(t.skip(1))->Some_0;
    assert(t.skip(1).take(n2) =~= t.take(n).skip(1));
    assert(t.take(n) =~= seq![t[0]] + t.skip(1).take(n2));
    assert(t.take(n) =~= json_string(c));
}

/// Parsing one record inverts writing one, whatever follows it.
proof fn lemma_parse_message_inverse(m: MessageView, rest: Seq<char>)
    ensures
        spec_parse_message(json_of_message(m) + rest) == Some(
            (m, json_of_message(m).len() as int),
        ),
        json_of_message(m).len() >= 1,
{
    let t = json_of_message(m) + rest;
    let cstr = json_string(m.content);
    let lstr = json_string(spec_level_name(m.level));
    assert(t =~= content_key() + cstr + level_key() + lstr + seq!['}'] + rest);
    assert(content_key().len() == 11);
    assert(level_key().len() == 9);
    assert(t.take(11) =~= content_key());
    assert(has_prefix(t, content_key()));
    let rest1 = level_key() + lstr + seq!['}'] + rest;
    assert(t.skip(11) =~= cstr + rest1);
    lemma_parse_string_inverse(m.content, rest1);
    let n1 = cstr.len() as int;
    assert(spec_parse_string(t.skip(11)) == Some((m.content, n1)));
    assert(11 + n1 <= t.len());
    assert(t.skip(11 + n1) =~= rest1);
    assert(rest1.take(9) =~= level_key());
    assert(has_prefix(t.skip(11 + n1), level_key()));
    let rest2 = seq!['}'] + rest;
    assert(t.skip(11 + n1 + 9) =~= lstr + rest2);
    lemma_parse_string_inverse(spec_level_name(m.level), rest2);
    let n2 = lstr.len() as int;
    assert(spec_parse_string(t.skip(11 + n1 + 9)) == Some((spec_level_name(m.level), n2)));
    lemma_level_name_inverse(m.level);
    let end = 11 + n1 + 9 + n2;
    assert(t[end] == '}');
    assert(end + 1 <= t.len());
    assert(json_of_message(m).len() == end + 1);
    assert(spec_parse_message(t) == Some((MessageView { content: m.content, level: m.level }, end + 1)));
    assert(MessageView { content: m.content, level: m.level } == m);
}

/// A parsed record is the written form of its result.
proof fn lemma_parse_message_sound(t: Seq<char>)
    requires
        spec_parse_message(t) is Some,
    ensures
        ({
            let (m, n) = spec_parse_message(t)->Some_0;
            &&& 1 <= n <= t.len()
            &&& n == json_of_message(m).len()
            &&& t.take(n) == json_of_message(m)
        }),
{
    let (m, n) = spec_parse_message(t)->Some_0;
    let (c, n1) = spec_parse_string(t.skip(11))->Some_0;
    lemma_parse_string_sound(t.skip(11));
    let (nm, n2) = spec_parse_string(t.skip(11 + n1 + 9))->Some_0;
    lemma_parse_string_sound(t.skip(11 + n1 + 9));
    assert(t.skip(11).take(n1) =~= t.subrange(11, 11 + n1));
    assert(t.skip(11 + n1).take(9) =~= t.subrange(11 + n1, 11 + n1 + 9));
    assert(t.skip(11 + n1 + 9).take(n2) =~= t.subrange(11 + n1 + 9, 11 + n1 + 9 + n2));
    assert(m.content == c);
    assert(spec_level_name(m.level) == nm) by {
        assert(level_of_name(nm) == Some(m.level));
    }
    assert(t.take(n) =~= t.take(11) + t.subrange(11, 11 + n1) + t.subrange(11 + n1, 11 + n1 + 9)
        + t.subrange(11 + n1 + 9, 11 + n1 + 9 + n2) + seq![t[11 + n1 + 9 + n2]]);
    assert(t.take(n) =~= json_of_message(m));
}

/// The tail of the canonical array text, after its first record: each
/// further record behind a comma, then the closing bracket.
pub open spec fn json_rest(ms: Seq<MessageView>) -> Seq<char>
    decreases ms.len(),
{
    if ms.len() == 0 {
        seq![']']
    } else {
        seq![','] + json_of_message(ms[0]) + json_rest(ms.skip(1))
    }
}

/// The canonical array text, split at its first record.
proof fn lemma_json_of_messages_split(ms: Seq<MessageView>)
    ensures
        ms.len() == 0 ==> json_of_messages(ms) == seq!['[', ']'],
        ms.len() > 0 ==> json_of_messages(ms) == seq!['['] + json_of_message(ms[0]) + json_rest(
            ms.skip(1),
        ),
    decreases ms.len(),
{
    if ms.len() == 0 {
        assert(json_of_messages(ms) =~= seq!['[', ']']);
    } else {
        assert(json_of_messages_body(ms) + seq![']'] =~= json_of_message(ms[0]) + json_rest(
            ms.skip(1),
        )) by {
            lemma_body_rest(ms);
        }
        assert(json_of_messages(ms) =~= seq!['['] + (json_of_messages_body(ms) + seq![']']));
        assert(seq!['['] + (json_of_message(ms[0]) + json_rest(ms.skip(1))) =~= seq!['[']
            + json_of_message(ms[0]) + json_rest(ms.skip(1)));
    }
}

/// The comma-joined body, closed by a bracket, is record-then-tail.
proof fn lemma_body_rest(ms: Seq<MessageView>)
    requires
        ms.len() > 0,
    ensures
        json_of_messages_body(ms) + seq![']'] == json_of_message(ms[0]) + json_rest(ms.skip(1)),
    decreases ms.len(),
{
    if ms.len() == 1 {
        assert(json_rest(ms.skip(1)) =~= seq![']']);
        assert(json_of_messages_body(ms) + seq![']'] =~= json_of_message(ms[0]) + seq![']']);
    } else {
        lemma_body_rest(ms.skip(1));
        assert(ms.skip(1)[0] == ms[1]);
        assert(ms.skip(1).skip(1) =~= ms.skip(2));
        assert(json_of_messages_body(ms) + seq![']'] =~= json_of_message(ms[0]) + (seq![',']
            + (json_of_messages_body(ms.skip(1)) + seq![']'])));
        assert(json_rest(ms.skip(1)) =~= seq![','] + json_of_message(ms.skip(1)[0]) + json_rest(
            ms.skip(1).skip(1),
        ));
        assert(seq![','] + (json_of_message(ms.skip(1)[0]) + json_rest(ms.skip(1).skip(1))) =~= seq![
            ','
        ] + json_of_message(ms.skip(1)[0]) + json_rest(ms.skip(1).skip(1)));
    }
}

/// Parsing the tail inverts writing it.
proof fn lemma_parse_rest_inverse(ms: Seq<MessageView>)
    ensures
        spec_parse_messages_rest(json_rest(ms)) == Some(ms),
    decreases ms.len(),
{
    let t = json_rest(ms);
    if ms.len() == 0 {
        assert(t =~= seq![']']);
        assert(spec_parse_messages_rest(t) == Some(Seq::<MessageView>::empty()));
        assert(Seq::<MessageView>::empty() =~= ms);
    } else {
        lemma_parse_rest_inverse(ms.skip(1));
        assert(t[0] == ',');
        assert(t[0] != ']');
        lemma_parse_message_inverse(ms[0], json_rest(ms.skip(1)));
        assert(t.skip(1) =~= json_of_message(ms[0]) + json_rest(ms.skip(1)));
        let n = json_of_message(ms[0]).len() as int;
        assert(spec_parse_message(t.skip(1)) == Some((ms[0], n)));
        assert(1 + n <= t.len());
        assert(t.skip(1 + n) =~= json_rest(ms.skip(1)));
        assert(seq![ms[0]] + ms.skip(1) =~= ms);
    }
}

/// A parsed tail is the written form of its result.
#[verifier::rlimit(100)]
proof fn lemma_parse_rest_sound(t: Seq<char>)
    requires
        spec_parse_messages_rest(t) is Some,
    ensures
        t == json_rest(spec_parse_messages_rest(t)->Some_0),
    decreases t.len(),
{
    let ms = spec_parse_messages_rest(t)->Some_0;
    if t[0] == ']' {
        assert(t =~= seq![']']);
    } else {
        let (m, n) = spec_parse_message(t.skip(1))->Some_0;
        lemma_parse_message_sound(t.skip(1));
        lemma_parse_rest_sound(t.skip(1 + n));
        let ms2 = spec_parse_messages_rest(t.skip(1 + n))->Some_0;
        assert(ms == seq![m] + ms2);
        assert(ms.skip(1) =~= ms2);
        assert(ms[0] == m);
        assert(t.skip(1).take(n) =~= t.subrange(1, 1 + n));
        assert(t =~= seq![t[0]] + t.subrange(1, 1 + n) + t.skip(1 + n));
        assert(t =~= seq![','] + json_of_message(m) + json_rest(ms2));
        assert(json_rest(ms) =~= seq![','] + json_of_message(ms[0]) + json_rest(ms.skip(1)));
    }
}

/// The shape of a non-empty list's array text: an opening bracket, then
/// the first record, then the tail.
#[verifier::rlimit(100)]
#[verifier::spinoff_prover]
proof fn lemma_parse_messages_header(ms: Seq<MessageView>)
    requires
        ms.len() > 0,
    ensures
        json_of_messages(ms).skip(1) == json_of_message(ms[0]) + json_rest(ms.skip(1)),
        json_of_messages(ms).skip(1 + json_of_message(ms[0]).len() as int) == json_rest(ms.skip(1)),
        json_of_messages(ms).len() >= 2 + json_of_message(ms[0]).len(),
        json_of_messages(ms)[0] == '[',
        json_of_messages(ms)[1] != ']',
{
    let t = json_of_messages(ms);
    lemma_json_of_messages_split(ms);
    assert(t.skip(1) =~= json_of_message(ms[0]) + json_rest(ms.skip(1)));
    assert(t.skip(1 + json_of_message(ms[0]).len() as int) =~= json_rest(ms.skip(1)));
    assert(json_rest(ms.skip(1)).len() >= 1);
    assert(t[1] == json_of_message(ms[0])[0]) by {
        assert(t.skip(1)[0] == t[1]);
        assert((json_of_message(ms[0]) + json_rest(ms.skip(1)))[0] == json_of_message(
            ms[0],
        )[0]);
    }
    assert(json_of_message(ms[0])[0] == '{');
}

/// Parsing the array text of a non-empty list yields it back.
#[verifier::rlimit(100)]
#[verifier::spinoff_prover]
proof fn lemma_parse_messages_inverse_nonempty(ms: Seq<MessageView>)
    requires
        ms.len() > 0,
    ensures
        spec_parse_messages(json_of_messages(ms)) == Some(ms),
{
    let t = json_of_messages(ms);
    lemma_parse_messages_header(ms);
    lemma_parse_message_inverse(ms[0], json_rest(ms.skip(1)));
    let n = json_of_message(ms[0]).len() as int;
    assert(t.len() >= 2 && t[0] == '[' && t[1] != ']');
    assert(spec_parse_message(t.skip(1)) == Some((ms[0], n)));
    assert(1 + n <= t.len());
    lemma_parse_rest_inverse(ms.skip(1));
    assert(seq![ms[0]] + ms.skip(1) =~= ms);
}

/// Parsing the array text yields back exactly the list it was written from.
pub proof fn lemma_parse_messages_inverse(ms: Seq<MessageView>)
    ensures
        spec_parse_messages(json_of_messages(ms)) == Some(ms),
{
    if ms.len() == 0 {
        let t = json_of_messages(ms);
        lemma_json_of_messages_split(ms);
        assert(t.len() == 2 && t[0] == '[' && t[1] == ']');
        assert(Seq::<MessageView>::empty() =~= ms);
    } else {
        lemma_parse_messages_inverse_nonempty(ms);
    }
}

/// A parsed array text is the written form of its result.
#[verifier::rlimit(100)]
#[verifier::spinoff_prover]
pub proof fn lemma_parse_messages_sound(t: Seq<char>)
    requires
        spec_parse_messages(t) is Some,
    ensures
        t == json_of_messages(spec_parse_messages(t)->Some_0),
{
    let ms = spec_parse_messages(t)->Some_0;
    lemma_json_of_messages_split(ms);
    if t[1] == ']' {
        assert(ms =~= Seq::<MessageView>::empty());
        assert(t =~= seq!['[', ']']);
    } else {
        let (m, n) = spec_parse_message(t.skip(1))->Some_0;
        lemma_parse_message_sound(t.skip(1));
        lemma_parse_rest_sound(t.skip(1 + n));
        let ms2 = spec_parse_messages_rest(t.skip(1 + n))->Some_0;
        assert(ms == seq![m] + ms2);
        assert(ms.skip(1) =~= ms2);
        assert(ms[0] == m);
        assert(ms.len() > 0);
        assert(t.skip(1).take(n) =~= t.subrange(1, 1 + n));
        assert(t =~= seq![t[0]] + t.subrange(1, 1 + n) + t.skip(1 + n));
        assert(t =~= seq!['['] + json_of_message(m) + json_rest(ms2));
    }
}

/// Whether `pat` stands in `s` at position `i`.
fn match_chars(s: &Vec<char>, i: usize, pat: &Vec<char>) -> (r: bool)
    requires
        i <= s@.len(),
    ensures
        r == has_prefix(s@.skip(i as int), pat@),
        r ==> i + pat@.len() <= s@.len(),
{
    let n = s.len();
    if n - i < pat.len() {
        return false;
    }
    let mut k: usize = 0;
    while k < pat.len()
        invariant
            k <= pat@.len(),
            n == s@.len(),
            i + pat@.len() <= s@.len(),
            forall|x: int| 0 <= x < k ==> s@[i + x] == pat@[x],
        decreases pat@.len() - k,
    {
        proof {
            assert(i + k < s@.len());
        }
        if s[i + k] != pat[k] {
            proof {
                assert(s@.skip(i as int)[k as int] == s@[i + k]);
                assert(!has_prefix(s@.skip(i as int), pat@)) by {
                    if has_prefix(s@.skip(i as int), pat@) {
                        assert(s@.skip(i as int).take(pat@.len() as int)[k as int] == s@.skip(
                            i as int,
                        )[k as int]);
                    }
                }
            }
            return false;
        }
        k = k + 1;
    }
    proof {
        assert(s@.skip(i as int).take(pat@.len() as int) =~= pat@);
    }
    true
}

/// Parse a string value starting at `i`; on success, the decoded content
/// and the position just past the closing quote.
fn parse_string_value(s: &Vec<char>, i: usize) -> (r: Option<(Vec<char>, usize)>)
    requires
        i <= s@.len(),
    ensures
        r matches Some(p) ==> i < p.1 <= s@.len() && spec_parse_string(s@.skip(i as int)) == Some(
            (p.0@, p.1 - i as int),
        ),
        r is None ==> spec_parse_string(s@.skip(i as int)) is None,
{
    let n = s.len();
    if i >= n {
        return None;
    }
    if s[i] != '"' {
        proof {
            assert(s@.skip(i as int)[0] == s@[i as int]);
        }
        return None;
    }
    proof {
        assert(s@.skip(i as int)[0] == s@[i as int]);
        assert(s@.skip(i as int).skip(1) =~= s@.skip(i as int + 1));
    }
    let mut acc: Vec<char> = Vec::new();
    let mut j: usize = i + 1;
    loop
        invariant
            i + 1 <= j <= n,
            n == s@.len(),
            i < n,
            s@[i as int] == '"',
            s@.skip(i as int).skip(1) =~= s@.skip(i as int + 1),
            spec_parse_string_body(s@.skip(i as int + 1)) == (match spec_parse_string_body(
                s@.skip(j as int),
            ) {
                Some(q) => Some((acc@ + q.0, q.1 + (j - i - 1))),
                None => None::<(Seq<char>, int)>,
            }),
        decreases n - j,
    {
        if j >= n {
            proof {
                assert(s@.skip(j as int).len() == 0);
            }
            return None;
        }
        let c = s[j];
        proof {
            assert(s@.skip(j as int)[0] == s@[j as int]);
        }
        if c == '"' {
            proof {
                assert(spec_parse_string_body(s@.skip(j as int)) == Some(
                    (Seq::<char>::empty(), 1int),
                ));
                assert(acc@ + Seq::<char>::empty() =~= acc@);
            }
            return Some((acc, j + 1));
        } else if c == '\\' {
            if j + 1 >= n {
                proof {
                    assert(s@.skip(j as int).len() == 1);
                }
                return None;
            }
            let c2 = s[j + 1];
            proof {
                assert(s@.skip(j as int)[1] == s@[j + 1]);
                assert(s@.skip(j as int).len() >= 2);
            }
            if c2 == '"' || c2 == '\\' {
                let ghost acc_old = acc@;
                acc.push(c2);
                proof {
                    let tj = s@.skip(j as int);
                    assert(tj.skip(2) =~= s@.skip(j as int + 2));
                    if spec_parse_string_body(s@.skip(j as int + 2)) is Some {
                        let q2 = spec_parse_string_body(s@.skip(j as int + 2))->Some_0;
                        assert(spec_parse_string_body(tj) == Some((seq![c2] + q2.0, q2.1 + 2)));
                        assert(acc_old + (seq![c2] + q2.0) =~= acc@ + q2.0);
                    } else {
                        assert(spec_parse_string_body(tj) is None);
                    }
                }
                j = j + 2;
            } else {
                return None;
            }
        } else {
            let ghost acc_old = acc@;
            acc.push(c);
            proof {
                let tj = s@.skip(j as int);
                assert(tj.skip(1) =~= s@.skip(j as int + 1));
                if spec_parse_string_body(s@.skip(j as int + 1)) is Some {
                    let q2 = spec_parse_string_body(s@.skip(j as int + 1))->Some_0;
                    assert(spec_parse_string_body(tj) == Some((seq![c] + q2.0, q2.1 + 1)));
                    assert(acc_old + (seq![c] + q2.0) =~= acc@ + q2.0);
                } else {
                    assert(spec_parse_string_body(tj) is None);
                }
            }
            j = j + 1;
        }
    }
}

/// The level named by `name`, if any.
fn level_from_name(name: &Vec<char>) -> (r: Option<Level>)
    ensures
        r == level_of_name(name@),
{
    let n = name.len();
    if n == 5 && name[0] == 'd' && name[1] == 'e' && name[2] == 'b' && name[3] == 'u' && name[4]
        == 'g' {
        proof {
            assert(name@ =~= spec_level_name(Level::Debug));
        }
        Some(Level::Debug)
    } else if n == 4 && name[0] == 'i' && name[1] == 'n' && name[2] == 'f' && name[3] == 'o' {
        proof {
            assert(name@ =~= spec_level_name(Level::Info));
        }
        Some(Level::Info)
    } else if n == 7 && name[0] == 's' && name[1] == 'u' && name[2] == 'c' && name[3] == 'c'
        && name[4] == 'e' && name[5] == 's' && name[6] == 's' {
        proof {
            assert(name@ =~= spec_level_name(Level::Success));
        }
        Some(Level::Success)
    } else if n == 7 && name[0] == 'w' && name[1] == 'a' && name[2] == 'r' && name[3] == 'n'
        && name[4] == 'i' && name[5] == 'n' && name[6] == 'g' {
        proof {
            assert(name@ =~= spec_level_name(Level::Warning));
        }
        Some(Level::Warning)
    } else if n == 5 && name[0] == 'e' && name[1] == 'r' && name[2] == 'r' && name[3] == 'o'
        && name[4] == 'r' {
        proof {
            assert(name@ =~= spec_level_name(Level::Error));
        }
        Some(Level::Error)
    } else {
        proof {
            if name@ == spec_level_name(Level::Debug) {
                assert(name@[0] == 'd' && name@[1] == 'e' && name@[2] == 'b' && name@[3] == 'u'
                    && name@[4] == 'g');
                assert(false);
            }
            if name@ == spec_level_name(Level::Info) {
                assert(name@[0] == 'i' && name@[1] == 'n' && name@[2] == 'f' && name@[3] == 'o');
                assert(false);
            }
            if name@ == spec_level_name(Level::Success) {
                assert(name@[0] == 's' && name@[1] == 'u' && name@[2] == 'c' && name@[3] == 'c'
                    && name@[4] == 'e' && name@[5] == 's' && name@[6] == 's');
                assert(false);
            }
            if name@ == spec_level_name(Level::Warning) {
                assert(name@[0] == 'w' && name@[1] == 'a' && name@[2] == 'r' && name@[3] == 'n'
                    && name@[4] == 'i' && name@[5] == 'n' && name@[6] == 'g');
                assert(false);
            }
            if name@ == spec_level_name(Level::Error) {
                assert(name@[0] == 'e' && name@[1] == 'r' && name@[2] == 'r' && name@[3] == 'o'
                    && name@[4] == 'r');
                assert(false);
            }
        }
        None
    }
}

/// Parse one message record starting at `i`; on success, the message and
/// the position just past its closing brace.
fn parse_message(s: &Vec<char>, i: usize) -> (r: Option<(FlashMessage, usize)>)
    requires
        i <= s@.len(),
    ensures
        r matches Some(p) ==> i < p.1 <= s@.len() && spec_parse_message(s@.skip(i as int)) == Some(
            (p.0@, p.1 - i as int),
        ),
        r is None ==> spec_parse_message(s@.skip(i as int)) is None,
{
    let n = s.len();
    let ghost t = s@.skip(i as int);
    let mut ckey: Vec<char> = Vec::new();
    ckey.push('{');
    ckey.push('"');
    ckey.push('c');
    ckey.push('o');
    ckey.push('n');
    ckey.push('t');
    ckey.push('e');
    ckey.push('n');
    ckey.push('t');
    ckey.push('"');
    ckey.push(':');
    proof {
        assert(ckey@ =~= content_key());
    }
    if !match_chars(s, i, &ckey) {
        return None;
    }
    proof {
        assert(ckey@.len() == 11);
        assert(i + 11 <= s@.len());
        assert(t.skip(11) =~= s@.skip(i as int + 11));
    }
    let parsed_content = parse_string_value(s, i + 11);
    match parsed_content {
        None => None,
        Some((content, e1)) => {
            proof {
                assert(spec_parse_string(t.skip(11)) == Some((content@, e1 - (i + 11))));
                assert(11 + (e1 - (i + 11)) == e1 - i);
                assert(t.skip(e1 - i) =~= s@.skip(e1 as int));
            }
            let mut lkey: Vec<char> = Vec::new();
            lkey.push(',');
            lkey.push('"');
            lkey.push('l');
            lkey.push('e');
            lkey.push('v');
            lkey.push('e');
            lkey.push('l');
            lkey.push('"');
            lkey.push(':');
            proof {
                assert(lkey@ =~= level_key());
            }
            if !match_chars(s, e1, &lkey) {
                return None;
            }
            proof {
                assert(lkey@.len() == 9);
                assert(e1 + 9 <= s@.len());
                assert(t.skip(e1 - i + 9) =~= s@.skip(e1 + 9));
            }
            let parsed_name = parse_string_value(s, e1 + 9);
            match parsed_name {
                None => None,
                Some((name, e2)) => {
                    proof {
                        assert(spec_parse_string(t.skip(e1 - i + 9)) == Some(
                            (name@, e2 - (e1 + 9)),
                        ));
                        assert((e1 - i) + 9 + (e2 - (e1 + 9)) == e2 - i);
                    }
                    let parsed_level = level_from_name(&name);
                    match parsed_level {
                        None => None,
                        Some(lv) => {
                            if e2 < n && *vstd::slice::slice_index_get(
                                s.as_slice(),
                                e2,
                            ) == '}' {
                                proof {
                                    assert(t[e2 - i] == s@[e2 as int]);
                                }
                                let msg = FlashMessage::new(chars_to_string(&content), lv);
                                Some((msg, e2 + 1))
                            } else {
                                proof {
                                    if e2 < s@.len() {
                                        assert(t[e2 - i] == s@[e2 as int]);
                                    }
                                }
                                None
                            }
                        },
                    }
                },
            }
        },
    }
}

/// Parse a whole array text held in a character vector.
#[verifier::rlimit(100)]
fn parse_messages_vec(cs: &Vec<char>) -> (r: Option<Vec<FlashMessage>>)
    ensures
        r matches Some(v) ==> spec_parse_messages(cs@) == Some(views_of(v@)),
        r is None ==> spec_parse_messages(cs@) is None,
{
    let n = cs.len();
    if n < 2 {
        return None;
    }
    if cs[0] != '[' {
        return None;
    }
    if cs[1] == ']' {
        if n == 2 {
            let empty: Vec<FlashMessage> = Vec::new();
            proof {
                assert(views_of(empty@) =~= Seq::<MessageView>::empty());
            }
            return Some(empty);
        } else {
            return None;
        }
    }
    proof {
        assert(cs@.skip(1) =~= cs@.skip(1int));
    }
    let first = parse_message(cs, 1);
    match first {
        None => None,
        Some((m0, e0)) => {
            let mut acc: Vec<FlashMessage> = Vec::new();
            acc.push(m0);
            proof {
                assert(views_of(acc@) =~= seq![m0@]);
                assert(spec_parse_message(cs@.skip(1)) == Some((m0@, e0 - 1)));
            }
            let mut j: usize = e0;
            loop
                invariant
                    1 <= j <= n,
                    n == cs@.len(),
                    acc@.len() >= 1,
                    ({
                        match spec_parse_messages_rest(cs@.skip(j as int)) {
                            Some(ms) => spec_parse_messages(cs@) == Some(views_of(acc@) + ms),
                            None => spec_parse_messages(cs@) is None,
                        }
                    }),
                decreases n - j,
            {
                if j >= n {
                    proof {
                        assert(cs@.skip(j as int).len() == 0);
                    }
                    return None;
                }
                let c = cs[j];
                proof {
                    assert(cs@.skip(j as int)[0] == cs@[j as int]);
                }
                if c == ']' {
                    if j + 1 == n {
                        proof {
                            assert(cs@.skip(j as int).len() == 1);
                            assert(spec_parse_messages_rest(cs@.skip(j as int)) == Some(
                                Seq::<MessageView>::empty(),
                            ));
                            assert(views_of(acc@) + Seq::<MessageView>::empty() =~= views_of(
                                acc@,
                            ));
                        }
                        return Some(acc);
                    } else {
                        return None;
                    }
                } else if c == ',' {
                    proof {
                        assert(cs@.skip(j as int).skip(1) =~= cs@.skip(j as int + 1));
                    }
                    let next = parse_message(cs, j + 1);
                    match next {
                        None => {
                            return None;
                        },
                        Some((m, e)) => {
                            let ghost acc_old = acc@;
                            acc.push(m);
                            proof {
                                let tj = cs@.skip(j as int);
                                assert(spec_parse_message(tj.skip(1)) == Some((m@, e - (j + 1))));
                                assert(1 + (e - (j + 1)) == e - j);
                                assert(tj.skip(e - j) =~= cs@.skip(e as int));
                                assert(views_of(acc@) =~= views_of(acc_old).push(m@));
                                if spec_parse_messages_rest(cs@.skip(e as int)) is Some {
                                    let msr = spec_parse_messages_rest(cs@.skip(e as int))->Some_0;
                                    assert(spec_parse_messages_rest(tj) == Some(seq![m@] + msr));
                                    assert(views_of(acc_old) + (seq![m@] + msr) =~= views_of(acc@)
                                        + msr);
                                } else {
                                    assert(spec_parse_messages_rest(tj) is None);
                                }
                            }
                            j = e;
                        },
                    }
                } else {
                    return None;
                }
            }
        },
    }
}

/// Decode the canonical wire form back into a message list.
///
/// Exactly the texts produced by [`serialize_messages`] decode; every
/// other text is rejected.
pub fn deserialize_messages(s: &str) -> (r: Option<Vec<FlashMessage>>)
    ensures
        r matches Some(v) ==> s@ == json_of_messages(views_of(v@)),
        forall|ms: Seq<MessageView>|
            s@ == json_of_messages(ms) ==> r is Some && views_of(r->Some_0@) == ms,
{
    let cs = str_chars(s);
    let r = parse_messages_vec(&cs);
    proof {
        if r is Some {
            lemma_parse_messages_sound(s@);
        }
        assert forall|ms: Seq<MessageView>| s@ == json_of_messages(ms) implies r is Some
            && views_of(r->Some_0@) == ms by {
            lemma_parse_messages_inverse(ms);
        };
    }
    r
}

/// Append a JSON string value for `s` to `out`.
fn write_json_string(out: &mut Vec<char>, s: &Vec<char>)
    ensures
        final(out)@ == old(out)@ + json_string(s@),
{
    let ghost orig = out@;
    out.push('"');
    let mut j: usize = 0;
    while j < s.len()
        invariant
            j <= s@.len(),
            out@ == orig + seq!['"'] + json_string_body(s@.take(j as int)),
        decreases s@.len() - j,
    {
        let c = s[j];
        if c == '"' {
            out.push('\\');
            out.push('"');
        } else if c == '\\' {
            out.push('\\');
            out.push('\\');
        } else {
            out.push(c);
        }
        proof {
            lemma_string_body_snoc(s@.take(j as int), s@[j as int]);
            assert(s@.take(j + 1) =~= s@.take(j as int).push(s@[j as int]));
            assert(out@ =~= orig + seq!['"'] + json_string_body(s@.take(j + 1)));
        }
        j = j + 1;
    }
    out.push('"');
    proof {
        assert(s@.take(s@.len() as int) =~= s@);
        assert(out@ =~= orig + json_string(s@));
    }
}

/// Append the record of one message to `out`.
fn write_message(out: &mut Vec<char>, m: &FlashMessage)
    ensures
        final(out)@ == old(out)@ + json_of_message(m@),
{
    let ghost orig = out@;
    out.push('{');
    out.push('"');
    out.push('c');
    out.push('o');
    out.push('n');
    out.push('t');
    out.push('e');
    out.push('n');
    out.push('t');
    out.push('"');
    out.push(':');
    proof {
        assert(out@ =~= orig + content_key());
    }
    let cs = str_chars(m.content());
    write_json_string(out, &cs);
    let ghost after_content = out@;
    out.push(',');
    out.push('"');
    out.push('l');
    out.push('e');
    out.push('v');
    out.push('e');
    out.push('l');
    out.push('"');
    out.push(':');
    proof {
        assert(out@ =~= after_content + level_key());
    }
    let lv = m.level();
    let name = str_chars(crate::level::level_to_str(&lv));
    write_json_string(out, &name);
    out.push('}');
    proof {
        assert(out@ =~= orig + json_of_message(m@));
    }
}

/// Serialize a message list to its canonical wire form.
pub fn serialize_messages(messages: &Vec<FlashMessage>) -> (r: String)
    ensures
        r@ == json_of_messages(views_of(messages@)),
{
    let ghost ms = views_of(messages@);
    let mut out: Vec<char> = Vec::new();
    out.push('[');
    proof {
        assert(out@ =~= seq!['['] + json_of_messages_body(ms.take(0)));
    }
    let mut i: usize = 0;
    while i < messages.len()
        invariant
            i <= messages@.len(),
            ms == views_of(messages@),
            ms.len() == messages@.len(),
            out@ == seq!['['] + json_of_messages_body(ms.take(i as int)),
        decreases messages@.len() - i,
    {
        if i > 0 {
            out.push(',');
        }
        write_message(&mut out, &messages[i]);
        proof {
            assert(ms[i as int] == messages@[i as int]@);
            lemma_messages_body_snoc(ms.take(i as int), ms[i as int]);
            assert(ms.take(i + 1) =~= ms.take(i as int).push(ms[i as int]));
            assert(out@ =~= seq!['['] + json_of_messages_body(ms.take(i + 1)));
        }
        i = i + 1;
    }
    out.push(']');
    proof {
        assert(ms.take(ms.len() as int) =~= ms);
        assert(out@ =~= json_of_messages(ms));
    }
    chars_to_string(&out)
}

} // verus!
