//! The persistence format: one JSON document per branch,
//! `{"id":N,"name":"...","messages":[{"role":"...","content":"..."},...]}`.
//! The encoder and the parser are both verified against the same
//! spec-level grammar, and a round-trip law proves that parsing an
//! encoded branch gives the branch back. The front end only moves these
//! documents between strings and files.

use vstd::prelude::*;

use crate::store::{msgs_view, Branch, Message, MessageFrom, MessageView};
use crate::store::BranchView;
use crate::strutil::{dec_digits, digit_char, push_char, str_eq, usize_to_string};

verus! {

// --- encoding ---

/// JSON escaping of one character: quotes, backslashes and the three
/// common control characters get a two-character escape; everything else
/// stands for itself.
pub open spec fn json_escape_char(c: char) -> Seq<char> {
    if c == '"' {
        seq!['\\', '"']
    } else if c == '\\' {
        seq!['\\', '\\']
    } else if c == '\n' {
        seq!['\\', 'n']
    } else if c == '\t' {
        seq!['\\', 't']
    } else if c == '\r' {
        seq!['\\', 'r']
    } else {
        seq![c]
    }
}

/// JSON escaping of a whole text.
pub open spec fn json_escape(s: Seq<char>) -> Seq<char>
    decreases s.len(),
{
    if s.len() == 0 {
        Seq::empty()
    } else {
        json_escape_char(s[0]) + json_escape(s.skip(1))
    }
}

/// A JSON string token: the escaped text in quotes.
pub open spec fn enc_string(s: Seq<char>) -> Seq<char> {
    seq!['"'] + json_escape(s) + seq!['"']
}

/// The role names used in the persisted form.
pub open spec fn role_name(from: MessageFrom) -> Seq<char> {
    match from {
        MessageFrom::User => "user"@,
        MessageFrom::Assistant => "assistant"@,
        MessageFrom::System => "system"@,
    }
}

/// One encoded message object.
pub open spec fn enc_message(m: MessageView) -> Seq<char> {
    "{\"role\":"@ + enc_string(role_name(m.from)) + ",\"content\":"@ + enc_string(m.content)
        + "}"@
}

/// The encoded members of a message array after the first.
pub open spec fn enc_messages_rest(msgs: Seq<MessageView>) -> Seq<char>
    decreases msgs.len(),
{
    if msgs.len() == 0 {
        Seq::empty()
    } else {
        ","@ + enc_message(msgs[0]) + enc_messages_rest(msgs.skip(1))
    }
}

/// The encoded members of a message array.
pub open spec fn enc_messages(msgs: Seq<MessageView>) -> Seq<char> {
    if msgs.len() == 0 {
        Seq::empty()
    } else {
        enc_message(msgs[0]) + enc_messages_rest(msgs.skip(1))
    }
}

/// One encoded branch document.
pub open spec fn enc_branch(b: BranchView) -> Seq<char> {
    "{\"id\":"@ + dec_digits(b.id as nat) + ",\"name\":"@ + enc_string(b.name)
        + ",\"messages\":["@ + enc_messages(b.messages) + "]}"@
}

// --- parsing ---

/// Consumes an expected literal, giving the remainder.
pub open spec fn parse_lit(s: Seq<char>, lit: Seq<char>) -> Option<Seq<char>> {
    if lit.len() <= s.len() && s.subrange(0, lit.len() as int) == lit {
        Some(s.skip(lit.len() as int))
    } else {
        None
    }
}

/// Whether a character may follow a backslash in a persisted string.
pub open spec fn is_json_escape(c: char) -> bool {
    c == '"' || c == '\\' || c == 'n' || c == 't' || c == 'r'
}

/// The character a persisted escape stands for.
pub open spec fn json_unescape(c: char) -> char {
    if c == 'n' {
        '\n'
    } else if c == 't' {
        '\t'
    } else if c == 'r' {
        '\r'
    } else {
        c
    }
}

/// Consumes a string body up to its closing quote, giving the decoded
/// text and the remainder.
pub open spec fn parse_string_body(s: Seq<char>) -> Option<(Seq<char>, Seq<char>)>
    decreases s.len(),
{
    if s.len() == 0 {
        None
    } else if s[0] == '"' {
        Some((Seq::empty(), s.skip(1)))
    } else if s[0] == '\\' {
        if s.len() >= 2 && is_json_escape(s[1]) {
            match parse_string_body(s.skip(2)) {
                Some((t, r)) => Some((seq![json_unescape(s[1])] + t, r)),
                None => None,
            }
        } else {
            None
        }
    } else {
        match parse_string_body(s.skip(1)) {
            Some((t, r)) => Some((seq![s[0]] + t, r)),
            None => None,
        }
    }
}

/// Consumes a quoted string token.
pub open spec fn parse_string(s: Seq<char>) -> Option<(Seq<char>, Seq<char>)> {
    if s.len() >= 1 && s[0] == '"' {
        parse_string_body(s.skip(1))
    } else {
        None
    }
}

/// Whether a character is a decimal digit.
pub open spec fn is_digit(c: char) -> bool {
    c == '0' || c == '1' || c == '2' || c == '3' || c == '4' || c == '5' || c == '6' || c == '7'
        || c == '8' || c == '9'
}

/// The value of a decimal digit.
pub open spec fn digit_val(c: char) -> nat {
    if c == '0' {
        0
    } else if c == '1' {
        1
    } else if c == '2' {
        2
    } else if c == '3' {
        3
    } else if c == '4' {
        4
    } else if c == '5' {
        5
    } else if c == '6' {
        6
    } else if c == '7' {
        7
    } else if c == '8' {
        8
    } else {
        9
    }
}

/// The value of a digit string, most significant digit first.
pub open spec fn digits_to_nat(d: Seq<char>) -> nat
    decreases d.len(),
{
    if d.len() == 0 {
        0
    } else {
        digits_to_nat(d.drop_last()) * 10 + digit_val(d.last())
    }
}

/// The end of the digit run starting at `i`.
pub open spec fn digits_end(s: Seq<char>, i: int) -> int
    decreases s.len() - i,
    when 0 <= i <= s.len()
{
    if i < s.len() && is_digit(s[i]) {
        digits_end(s, i + 1)
    } else {
        i
    }
}

/// Consumes a nonempty digit run, giving its value and the remainder.
pub open spec fn parse_number(s: Seq<char>) -> Option<(nat, Seq<char>)> {
    let e = digits_end(s, 0);
    if e == 0 {
        None
    } else {
        Some((digits_to_nat(s.subrange(0, e)), s.skip(e)))
    }
}

/// The role a persisted role name stands for.
pub open spec fn parse_role(name: Seq<char>) -> Option<MessageFrom> {
    if name == "user"@ {
        Some(MessageFrom::User)
    } else if name == "assistant"@ {
        Some(MessageFrom::Assistant)
    } else if name == "system"@ {
        Some(MessageFrom::System)
    } else {
        None
    }
}

/// Consumes one message object, giving the message and the remainder.
pub open spec fn parse_message(s: Seq<char>) -> Option<(MessageView, Seq<char>)> {
    match parse_lit(s, "{\"role\":"@) {
        None => None,
        Some(r1) => match parse_string(r1) {
            None => None,
            Some((rn, r2)) => match parse_role(rn) {
                None => None,
                Some(from) => match parse_lit(r2, ",\"content\":"@) {
                    None => None,
                    Some(r3) => match parse_string(r3) {
                        None => None,
                        Some((content, r4)) => match parse_lit(r4, "}"@) {
                            None => None,
                            Some(r5) => Some((MessageView { from, content }, r5)),
                        },
                    },
                },
            },
        },
    }
}

/// A consumed string body is strictly shorter than its input.
pub proof fn lemma_parse_string_body_shrinks(s: Seq<char>)
    ensures
        match parse_string_body(s) {
            Some((t, r)) => r.len() < s.len(),
            None => true,
        },
    decreases s.len(),
{
    if s.len() == 0 {
    } else if s[0] == '"' {
    } else if s[0] == '\\' {
        if s.len() >= 2 && is_json_escape(s[1]) {
            lemma_parse_string_body_shrinks(s.skip(2));
        }
    } else {
        lemma_parse_string_body_shrinks(s.skip(1));
    }
}

/// A consumed message object is strictly shorter than its input.
pub proof fn lemma_parse_message_shrinks(s: Seq<char>)
    ensures
        match parse_message(s) {
            Some((m, r)) => r.len() < s.len(),
            None => true,
        },
{
    match parse_lit(s, "{\"role\":"@) {
        None => {},
        Some(r1) => {
            if r1.len() >= 1 && r1[0] == '"' {
                lemma_parse_string_body_shrinks(r1.skip(1));
                match parse_string_body(r1.skip(1)) {
                    None => {},
                    Some((rn, r2)) => {
                        match parse_lit(r2, ",\"content\":"@) {
                            None => {},
                            Some(r3) => {
                                if r3.len() >= 1 && r3[0] == '"' {
                                    lemma_parse_string_body_shrinks(r3.skip(1));
                                }
                            },
                        }
                    },
                }
            }
        },
    }
}

/// Consumes the members of a message array after the first, up to and
/// including the closing bracket.
pub open spec fn parse_messages_rest(s: Seq<char>, acc: Seq<MessageView>) -> Option<
    (Seq<MessageView>, Seq<char>),
>
    decreases s.len(),
    when true
    via parse_messages_rest_dec
{
    if s.len() == 0 {
        None
    } else if s[0] == ']' {
        Some((acc, s.skip(1)))
    } else if s[0] == ',' {
        match parse_message(s.skip(1)) {
            Some((m, r)) => parse_messages_rest(r, acc.push(m)),
            None => None,
        }
    } else {
        None
    }
}

#[via_fn]
proof fn parse_messages_rest_dec(s: Seq<char>, acc: Seq<MessageView>) {
    if s.len() != 0 && s[0] != ']' && s[0] == ',' {
        lemma_parse_message_shrinks(s.skip(1));
    }
}

/// Consumes a message array after its opening bracket, up to and
/// including the closing bracket.
pub open spec fn parse_messages(s: Seq<char>) -> Option<(Seq<MessageView>, Seq<char>)> {
    if s.len() == 0 {
        None
    } else if s[0] == ']' {
        Some((Seq::empty(), s.skip(1)))
    } else {
        match parse_message(s) {
            Some((m, r)) => parse_messages_rest(r, seq![m]),
            None => None,
        }
    }
}

/// Parses a whole branch document.
pub open spec fn parse_branch_text(s: Seq<char>) -> Option<BranchView> {
    match parse_lit(s, "{\"id\":"@) {
        None => None,
        Some(r1) => {
            match parse_number(r1) {
                None => None,
                Some((id, r2)) => {
                    if id > usize::MAX as nat {
                        None
                    } else {
                        match parse_lit(r2, ",\"name\":"@) {
                            None => None,
                            Some(r3) => {
                                match parse_string(r3) {
                                    None => None,
                                    Some((name, r4)) => {
                                        match parse_lit(r4, ",\"messages\":["@) {
                                            None => None,
                                            Some(r5) => {
                                                match parse_messages(r5) {
                                                    None => None,
                                                    Some((msgs, r6)) => {
                                                        match parse_lit(r6, "}"@) {
                                                            None => None,
                                                            Some(r7) => {
                                                                if r7.len() == 0 {
                                                                    Some(
                                                                        (BranchView {
                                                                            id: id as usize,
                                                                            name: name,
                                                                            messages: msgs,
                                                                        }),
                                                                    )
                                                                } else {
                                                                    None
                                                                }
                                                            },
                                                        }
                                                    },
                                                }
                                            },
                                        }
                                    },
                                }
                            },
                        }
                    }
                },
            }
        },
    }
}

// --- the round trip ---

/// A literal at the front of a text is consumed exactly.
proof fn lemma_parse_lit(lit: Seq<char>, rest: Seq<char>)
    ensures
        parse_lit(lit + rest, lit) == Some(rest),
{
    let s = lit + rest;
    assert(s.subrange(0, lit.len() as int) =~= lit);
    assert(s.skip(lit.len() as int) =~= rest);
}

/// Parsing an escaped text followed by its closing quote gives the text
/// back and leaves exactly the remainder.
proof fn lemma_rt_string_body(content: Seq<char>, rest: Seq<char>)
    ensures
        parse_string_body(json_escape(content) + seq!['"'] + rest) == Some((content, rest)),
    decreases content.len(),
{
    let s = json_escape(content) + seq!['"'] + rest;
    if content.len() == 0 {
        assert(json_escape(content) =~= Seq::<char>::empty());
        assert(s =~= seq!['"'] + rest);
        assert(s[0] == '"');
        assert(s.skip(1) =~= rest);
        assert(Seq::<char>::empty() =~= content);
    } else {
        let c = content[0];
        let tail = content.skip(1);
        assert(json_escape(content) == json_escape_char(c) + json_escape(tail));
        lemma_rt_string_body(tail, rest);
        if c == '"' || c == '\\' || c == '\n' || c == '\t' || c == '\r' {
            let e = if c == '"' {
                '"'
            } else if c == '\\' {
                '\\'
            } else if c == '\n' {
                'n'
            } else if c == '\t' {
                't'
            } else {
                'r'
            };
            assert(json_escape_char(c) =~= seq!['\\', e]);
            assert(s[0] == '\\');
            assert(s[1] == e);
            assert(is_json_escape(e));
            assert(json_unescape(e) == c);
            assert(s.skip(2) =~= json_escape(tail) + seq!['"'] + rest);
            assert(seq![c] + tail =~= content);
        } else {
            assert(json_escape_char(c) =~= seq![c]);
            assert(s[0] == c);
            assert(s.skip(1) =~= json_escape(tail) + seq!['"'] + rest);
            assert(seq![c] + tail =~= content);
        }
    }
}

/// Parsing an encoded string token gives the text back.
proof fn lemma_rt_string(content: Seq<char>, rest: Seq<char>)
    ensures
        parse_string(enc_string(content) + rest) == Some((content, rest)),
{
    let s = enc_string(content) + rest;
    assert(s[0] == '"');
    assert(s.skip(1) =~= json_escape(content) + seq!['"'] + rest);
    lemma_rt_string_body(content, rest);
}

/// Every character of a decimal rendering is a digit, and there is at
/// least one.
proof fn lemma_dec_digits_are_digits(n: nat)
    ensures
        dec_digits(n).len() >= 1,
        forall|k: int| 0 <= k < dec_digits(n).len() ==> is_digit(#[trigger] dec_digits(n)[k]),
    decreases n,
{
    if n < 10 {
        assert(is_digit(digit_char(n)));
    } else {
        lemma_dec_digits_are_digits(n / 10);
        assert(is_digit(digit_char(n % 10)));
        assert forall|k: int| 0 <= k < dec_digits(n).len() implies is_digit(
            #[trigger] dec_digits(n)[k],
        ) by {
            if k < dec_digits(n / 10).len() {
                assert(dec_digits(n)[k] == dec_digits(n / 10)[k]);
            }
        }
    }
}

/// A digit run bounded by a non-digit ends exactly at the boundary.
proof fn lemma_digits_end_run(s: Seq<char>, i: int, m: int)
    requires
        0 <= i <= m <= s.len(),
        forall|k: int| i <= k < m ==> is_digit(#[trigger] s[k]),
        m == s.len() || !is_digit(s[m]),
    ensures
        digits_end(s, i) == m,
    decreases m - i,
{
    if i < m {
        lemma_digits_end_run(s, i + 1, m);
    }
}

/// Reading back a decimal rendering gives the number.
proof fn lemma_digits_to_nat_dec(n: nat)
    ensures
        digits_to_nat(dec_digits(n)) == n,
    decreases n,
{
    if n < 10 {
        let d = dec_digits(n);
        assert(d.len() == 1);
        assert(d.last() == digit_char(n));
        assert(d.drop_last() =~= Seq::<char>::empty());
        assert(digits_to_nat(Seq::<char>::empty()) == 0);
        assert(digit_val(digit_char(n)) == n);
        assert(digits_to_nat(d) == 0 * 10 + digit_val(digit_char(n)));
    } else {
        lemma_digits_to_nat_dec(n / 10);
        let d = dec_digits(n);
        assert(d.last() == digit_char(n % 10));
        assert(d.drop_last() =~= dec_digits(n / 10));
        assert(digit_val(digit_char(n % 10)) == n % 10);
        assert(digits_to_nat(d) == digits_to_nat(dec_digits(n / 10)) * 10 + digit_val(
            digit_char(n % 10),
        ));
        assert((n / 10) * 10 + n % 10 == n);
    }
}

/// Parsing a decimal rendering followed by a non-digit gives the number
/// back and leaves exactly the remainder.
proof fn lemma_rt_number(n: nat, rest: Seq<char>)
    requires
        rest.len() == 0 || !is_digit(rest[0]),
    ensures
        parse_number(dec_digits(n) + rest) == Some((n, rest)),
{
    let d = dec_digits(n);
    let s = d + rest;
    lemma_dec_digits_are_digits(n);
    lemma_digits_end_run(s, 0, d.len() as int);
    assert(s.subrange(0, d.len() as int) =~= d);
    assert(s.skip(d.len() as int) =~= rest);
    lemma_digits_to_nat_dec(n);
}

/// A role name parses back to its role.
proof fn lemma_rt_role(from: MessageFrom)
    ensures
        parse_role(role_name(from)) == Some(from),
{
    reveal_strlit("user");
    reveal_strlit("assistant");
    reveal_strlit("system");
    assert("user"@.len() == 4);
    assert("assistant"@.len() == 9);
    assert("system"@.len() == 6);
}

/// Parsing an encoded message gives the message back.
proof fn lemma_rt_message(m: MessageView, rest: Seq<char>)
    ensures
        parse_message(enc_message(m) + rest) == Some((m, rest)),
{
    let l1 = "{\"role\":"@;
    let l2 = ",\"content\":"@;
    let l3 = "}"@;
    let s = enc_message(m) + rest;
    let t1 = enc_string(role_name(m.from)) + (l2 + enc_string(m.content) + l3 + rest);
    assert(s =~= l1 + t1);
    lemma_parse_lit(l1, t1);
    lemma_rt_string(role_name(m.from), l2 + enc_string(m.content) + l3 + rest);
    lemma_rt_role(m.from);
    let t2 = enc_string(m.content) + (l3 + rest);
    assert(l2 + enc_string(m.content) + l3 + rest =~= l2 + t2);
    lemma_parse_lit(l2, t2);
    lemma_rt_string(m.content, l3 + rest);
    lemma_parse_lit(l3, rest);
    assert(m == MessageView { from: m.from, content: m.content });
}

/// Parsing encoded array members after the first extends the
/// accumulator with exactly those messages.
proof fn lemma_rt_messages_rest(msgs: Seq<MessageView>, acc: Seq<MessageView>, rest: Seq<char>)
    ensures
        parse_messages_rest(enc_messages_rest(msgs) + seq![']'] + rest, acc) == Some(
            (acc + msgs, rest),
        ),
    decreases msgs.len(),
{
    let s = enc_messages_rest(msgs) + seq![']'] + rest;
    if msgs.len() == 0 {
        assert(enc_messages_rest(msgs) =~= Seq::<char>::empty());
        assert(s =~= seq![']'] + rest);
        assert(s[0] == ']');
        assert(s.skip(1) =~= rest);
        assert(acc + msgs =~= acc);
    } else {
        reveal_strlit(",");
        let m = msgs[0];
        let tail = msgs.skip(1);
        assert(enc_messages_rest(msgs) == ","@ + enc_message(m) + enc_messages_rest(tail));
        assert(","@ =~= seq![',']);
        assert(s[0] == ',');
        assert(s[0] != ']');
        let after = enc_messages_rest(tail) + seq![']'] + rest;
        assert(s.skip(1) =~= enc_message(m) + after);
        lemma_rt_message(m, after);
        lemma_rt_messages_rest(tail, acc.push(m), rest);
        assert(acc.push(m) + tail =~= acc + msgs);
    }
}

/// Parsing an encoded message array gives the messages back.
#[verifier::rlimit(100)]
#[verifier::spinoff_prover]
proof fn lemma_rt_messages(msgs: Seq<MessageView>, rest: Seq<char>)
    ensures
        parse_messages(enc_messages(msgs) + seq![']'] + rest) == Some((msgs, rest)),
{
    let s = enc_messages(msgs) + seq![']'] + rest;
    if msgs.len() == 0 {
        assert(enc_messages(msgs) =~= Seq::<char>::empty());
        assert(s =~= seq![']'] + rest);
        assert(s[0] == ']');
        assert(s.skip(1) =~= rest);
    } else {
        let m = msgs[0];
        let tail = msgs.skip(1);
        assert(enc_messages(msgs) == enc_message(m) + enc_messages_rest(tail));
        let after = enc_messages_rest(tail) + seq![']'] + rest;
        assert(s =~= enc_message(m) + after);
        lemma_rt_message(m, after);
        reveal_strlit("{\"role\":");
        assert(s[0] == '{');
        assert(s[0] != ']');
        lemma_rt_messages_rest(tail, seq![m], rest);
        assert(seq![m] + tail =~= msgs);
    }
}

/// The round trip: parsing an encoded branch document reconstructs the
/// branch, name, id and ordered message list alike.
#[verifier::rlimit(100)]
#[verifier::spinoff_prover]
pub proof fn lemma_branch_round_trip(b: BranchView)
    ensures
        parse_branch_text(enc_branch(b)) == Some(b),
{
    let l1 = "{\"id\":"@;
    let l2 = ",\"name\":"@;
    let l3 = ",\"messages\":["@;
    let l4 = "]}"@;
    let s = enc_branch(b);
    reveal_strlit(",\"name\":");
    reveal_strlit("]}");
    reveal_strlit("}");
    let t1 = dec_digits(b.id as nat) + (l2 + enc_string(b.name) + l3 + enc_messages(b.messages)
        + l4);
    assert(s =~= l1 + t1);
    lemma_parse_lit(l1, t1);
    let rest1 = l2 + enc_string(b.name) + l3 + enc_messages(b.messages) + l4;
    assert(rest1[0] == ',');
    assert(!is_digit(','));
    lemma_rt_number(b.id as nat, rest1);
    assert(b.id as nat <= usize::MAX as nat);
    let t2 = enc_string(b.name) + (l3 + enc_messages(b.messages) + l4);
    assert(rest1 =~= l2 + t2);
    lemma_parse_lit(l2, t2);
    lemma_rt_string(b.name, l3 + enc_messages(b.messages) + l4);
    let t3 = enc_messages(b.messages) + l4;
    assert(l3 + enc_messages(b.messages) + l4 =~= l3 + t3);
    lemma_parse_lit(l3, t3);
    assert(l4 =~= seq![']'] + "}"@);
    assert(t3 =~= enc_messages(b.messages) + seq![']'] + "}"@);
    lemma_rt_messages(b.messages, "}"@);
    lemma_parse_lit("}"@, Seq::<char>::empty());
    assert("}"@ =~= "}"@ + Seq::<char>::empty());
    assert(b == BranchView { id: b.id, name: b.name, messages: b.messages });
}

// --- the encoder ---

/// Escaping distributes over appending one character.
proof fn lemma_json_escape_push(a: Seq<char>, c: char)
    ensures
        json_escape(a.push(c)) == json_escape(a) + json_escape_char(c),
    decreases a.len(),
{
    if a.len() == 0 {
        assert(a.push(c)[0] == c);
        assert(a.push(c).skip(1) =~= Seq::<char>::empty());
        assert(json_escape(Seq::<char>::empty()) == Seq::<char>::empty());
        assert(json_escape_char(c) + Seq::<char>::empty() =~= json_escape_char(c));
        assert(Seq::<char>::empty() + json_escape_char(c) =~= json_escape_char(c));
    } else {
        assert(a.push(c)[0] == a[0]);
        assert(a.push(c).skip(1) =~= a.skip(1).push(c));
        lemma_json_escape_push(a.skip(1), c);
        assert(json_escape_char(a[0]) + (json_escape(a.skip(1)) + json_escape_char(c)) =~= (
        json_escape_char(a[0]) + json_escape(a.skip(1))) + json_escape_char(c));
    }
}

/// Appends one text as a JSON string token.
fn encode_json_string(out: &mut String, s: &str)
    ensures
        final(out)@ == old(out)@ + enc_string(s@),
{
    push_char(out, '"');
    let n = s.unicode_len();
    let mut i: usize = 0;
    while i < n
        invariant
            i <= n,
            n == s@.len(),
            out@ =~= old(out)@ + seq!['"'] + json_escape(s@.subrange(0, i as int)),
        decreases n - i,
    {
        let c = s.get_char(i);
        if c == '"' {
            out.append("\\\"");
            proof {
                reveal_strlit("\\\"");
                assert("\\\""@ =~= json_escape_char(c));
            }
        } else if c == '\\' {
            out.append("\\\\");
            proof {
                reveal_strlit("\\\\");
                assert("\\\\"@ =~= json_escape_char(c));
            }
        } else if c == '\n' {
            out.append("\\n");
            proof {
                reveal_strlit("\\n");
                assert("\\n"@ =~= json_escape_char(c));
            }
        } else if c == '\t' {
            out.append("\\t");
            proof {
                reveal_strlit("\\t");
                assert("\\t"@ =~= json_escape_char(c));
            }
        } else if c == '\r' {
            out.append("\\r");
            proof {
                reveal_strlit("\\r");
                assert("\\r"@ =~= json_escape_char(c));
            }
        } else {
            push_char(out, c);
            proof {
                assert(out@ =~= (old(out)@ + seq!['"'] + json_escape(s@.subrange(0, i as int)))
                    + json_escape_char(c));
            }
        }
        proof {
            assert(s@.subrange(0, i as int).push(c) =~= s@.subrange(0, i as int + 1));
            lemma_json_escape_push(s@.subrange(0, i as int), c);
            assert(out@ =~= old(out)@ + seq!['"'] + json_escape(s@.subrange(0, i as int + 1)));
        }
        i += 1;
    }
    push_char(out, '"');
    proof {
        assert(s@.subrange(0, n as int) =~= s@);
        assert(out@ =~= old(out)@ + (seq!['"'] + json_escape(s@) + seq!['"']));
    }
}

/// The role names used in the persisted form.
fn role_name_str(from: MessageFrom) -> (r: &'static str)
    ensures
        r@ == role_name(from),
{
    match from {
        MessageFrom::User => "user",
        MessageFrom::Assistant => "assistant",
        MessageFrom::System => "system",
    }
}

/// Appends one encoded message object.
fn encode_message(out: &mut String, m: &Message)
    ensures
        final(out)@ == old(out)@ + enc_message(m@),
{
    out.append("{\"role\":");
    encode_json_string(out, role_name_str(m.from));
    out.append(",\"content\":");
    encode_json_string(out, m.content.as_str());
    out.append("}");
    proof {
        assert(out@ =~= old(out)@ + enc_message(m@));
    }
}

/// The members of a message array grow one encoded message at a time.
proof fn lemma_enc_messages_rest_push(a: Seq<MessageView>, m: MessageView)
    ensures
        enc_messages_rest(a.push(m)) == enc_messages_rest(a) + (","@ + enc_message(m)),
    decreases a.len(),
{
    if a.len() == 0 {
        assert(a.push(m)[0] == m);
        assert(a.push(m).skip(1) =~= Seq::<MessageView>::empty());
        assert(enc_messages_rest(Seq::<MessageView>::empty()) == Seq::<char>::empty());
        assert(enc_messages_rest(a.push(m)) =~= ","@ + enc_message(m));
        assert(enc_messages_rest(a) + (","@ + enc_message(m)) =~= ","@ + enc_message(m));
    } else {
        assert(a.push(m)[0] == a[0]);
        assert(a.push(m).skip(1) =~= a.skip(1).push(m));
        lemma_enc_messages_rest_push(a.skip(1), m);
        assert(enc_messages_rest(a.push(m)) =~= enc_messages_rest(a) + (","@ + enc_message(m)));
    }
}

/// A whole message array grows one encoded message at a time.
proof fn lemma_enc_messages_push(a: Seq<MessageView>, m: MessageView)
    ensures
        a.len() == 0 ==> enc_messages(a.push(m)) == enc_message(m),
        a.len() > 0 ==> enc_messages(a.push(m)) == enc_messages(a) + (","@ + enc_message(m)),
{
    if a.len() == 0 {
        assert(a.push(m)[0] == m);
        assert(a.push(m).skip(1) =~= Seq::<MessageView>::empty());
        assert(enc_message(m) + Seq::<char>::empty() =~= enc_message(m));
    } else {
        assert(a.push(m)[0] == a[0]);
        assert(a.push(m).skip(1) =~= a.skip(1).push(m));
        lemma_enc_messages_rest_push(a.skip(1), m);
        assert(enc_messages(a.push(m)) =~= enc_messages(a) + (","@ + enc_message(m)));
    }
}

/// Encodes a branch as its persisted JSON document.
pub fn save_branch(b: &Branch) -> (r: String)
    ensures
        r@ == enc_branch(b@),
{
    let mut out = String::from_str("{\"id\":");
    let num = usize_to_string(b.id);
    out.append(num.as_str());
    out.append(",\"name\":");
    encode_json_string(&mut out, b.name.as_str());
    out.append(",\"messages\":[");
    let ghost base = out@;
    let n = b.messages.len();
    let mut i: usize = 0;
    while i < n
        invariant
            i <= n,
            n == b.messages@.len(),
            out@ =~= base + enc_messages(b@.messages.subrange(0, i as int)),
        decreases n - i,
    {
        if i > 0 {
            out.append(",");
        }
        encode_message(&mut out, &b.messages[i]);
        proof {
            let pre = b@.messages.subrange(0, i as int);
            assert(pre.push(b@.messages[i as int]) =~= b@.messages.subrange(0, i as int + 1));
            lemma_enc_messages_push(pre, b@.messages[i as int]);
            assert(out@ =~= base + enc_messages(b@.messages.subrange(0, i as int + 1)));
        }
        i += 1;
    }
    out.append("]}");
    proof {
        assert(b@.messages.subrange(0, n as int) =~= b@.messages);
        assert(out@ =~= enc_branch(b@));
    }
    out
}

// --- the parser ---

/// The characters of a text, as an indexable vector.
pub(crate) fn to_char_vec(s: &str) -> (r: Vec<char>)
    ensures
        r@ == s@,
{
    let n = s.unicode_len();
    let mut r: Vec<char> = Vec::new();
    let mut i: usize = 0;
    while i < n
        invariant
            i <= n,
            n == s@.len(),
            r@ =~= s@.subrange(0, i as int),
        decreases n - i,
    {
        r.push(s.get_char(i));
        proof {
            assert(r@ =~= s@.subrange(0, i as int + 1));
        }
        i += 1;
    }
    proof {
        assert(r@ =~= s@);
    }
    r
}

/// Consumes an expected literal starting at `i`.
pub(crate) fn p_lit(v: &Vec<char>, i: usize, lit: &str) -> (r: Option<usize>)
    requires
        i <= v@.len(),
    ensures
        match r {
            Some(j) => i <= j <= v@.len() && j - i == lit@.len() && parse_lit(
                v@.skip(i as int),
                lit@,
            ) == Some(v@.skip(j as int)),
            None => parse_lit(v@.skip(i as int), lit@) is None,
        },
{
    let m = lit.unicode_len();
    if m > v.len() - i {
        proof {
            assert(v@.skip(i as int).len() < lit@.len());
        }
        return None;
    }
    let mut k: usize = 0;
    while k < m
        invariant
            k <= m,
            m == lit@.len(),
            i + m <= v@.len(),
            v@.len() <= usize::MAX,
            forall|t: int| 0 <= t < k ==> v@[i + t] == lit@[t],
        decreases m - k,
    {
        if v[i + k] != lit.get_char(k) {
            proof {
                let s = v@.skip(i as int);
                assert(s.subrange(0, lit@.len() as int)[k as int] != lit@[k as int]);
                assert(s.subrange(0, lit@.len() as int) != lit@);
            }
            return None;
        }
        k += 1;
    }
    proof {
        let s = v@.skip(i as int);
        assert(s.subrange(0, lit@.len() as int) =~= lit@);
        assert(s.skip(lit@.len() as int) =~= v@.skip(i + m as int));
    }
    Some(i + m)
}

/// Consumes a string body starting at `i`, after the opening quote.
pub(crate) fn p_string_body(v: &Vec<char>, i: usize) -> (r: Option<(String, usize)>)
    requires
        i <= v@.len(),
    ensures
        match r {
            Some((t, j)) => i < j <= v@.len() && parse_string_body(v@.skip(i as int)) == Some(
                (t@, v@.skip(j as int)),
            ),
            None => parse_string_body(v@.skip(i as int)) is None,
        },
    decreases v@.len() - i,
{
    let ghost s = v@.skip(i as int);
    if i == v.len() {
        return None;
    }
    proof {
        assert(s[0] == v@[i as int]);
    }
    let c = v[i];
    if c == '"' {
        proof {
            assert(s.skip(1) =~= v@.skip(i as int + 1));
        }
        return Some((String::new(), i + 1));
    }
    if c == '\\' {
        if i + 1 < v.len() {
            let e = v[i + 1];
            proof {
                assert(s[1] == v@[i as int + 1]);
            }
            if e == '"' || e == '\\' || e == 'n' || e == 't' || e == 'r' {
                proof {
                    assert(s.skip(2) =~= v@.skip(i as int + 2));
                }
                match p_string_body(v, i + 2) {
                    Some((t, j)) => {
                        let u = json_unescape_char(e);
                        let mut out = String::new();
                        push_char(&mut out, u);
                        out.append(t.as_str());
                        proof {
                            assert(out@ =~= seq![json_unescape(s[1])] + t@);
                        }
                        return Some((out, j));
                    },
                    None => {
                        return None;
                    },
                }
            } else {
                return None;
            }
        } else {
            proof {
                assert(s.len() < 2);
            }
            return None;
        }
    }
    proof {
        assert(s.skip(1) =~= v@.skip(i as int + 1));
    }
    match p_string_body(v, i + 1) {
        Some((t, j)) => {
            let mut out = String::new();
            push_char(&mut out, c);
            out.append(t.as_str());
            proof {
                assert(out@ =~= seq![s[0]] + t@);
            }
            Some((out, j))
        },
        None => None,
    }
}

/// The character a persisted escape stands for.
fn json_unescape_char(c: char) -> (r: char)
    ensures
        r == json_unescape(c),
{
    match c {
        'n' => '\n',
        't' => '\t',
        'r' => '\r',
        _ => c,
    }
}

/// Consumes a quoted string token starting at `i`.
pub(crate) fn p_string(v: &Vec<char>, i: usize) -> (r: Option<(String, usize)>)
    requires
        i <= v@.len(),
    ensures
        match r {
            Some((t, j)) => i < j <= v@.len() && parse_string(v@.skip(i as int)) == Some(
                (t@, v@.skip(j as int)),
            ),
            None => parse_string(v@.skip(i as int)) is None,
        },
{
    if i == v.len() {
        return None;
    }
    proof {
        assert(v@.skip(i as int)[0] == v@[i as int]);
    }
    if v[i] != '"' {
        return None;
    }
    proof {
        assert(v@.skip(i as int).skip(1) =~= v@.skip(i as int + 1));
    }
    p_string_body(v, i + 1)
}

/// Consumes a nonempty digit run starting at `i`; `None` also covers a
/// value too large for the machine.
fn p_number(v: &Vec<char>, i: usize) -> (r: Option<(usize, usize)>)
    requires
        i <= v@.len(),
    ensures
        match r {
            Some((val, j)) => i < j <= v@.len() && parse_number(v@.skip(i as int)) == Some(
                (val as nat, v@.skip(j as int)),
            ),
            None => parse_number(v@.skip(i as int)) is None || (match parse_number(
                v@.skip(i as int),
            ) {
                Some((nn, _)) => nn > usize::MAX as nat,
                None => false,
            }),
        },
{
    let ghost s = v@.skip(i as int);
    let mut j: usize = i;
    let mut acc: Option<usize> = Some(0);
    let mut any = false;
    while j < v.len() && is_digit_char(v[j])
        invariant
            i <= j <= v@.len(),
            s == v@.skip(i as int),
            any == (j > i),
            forall|k: int| i <= k < j ==> is_digit(#[trigger] v@[k]),
            match acc {
                Some(a) => a as nat == digits_to_nat(v@.subrange(i as int, j as int)),
                None => digits_to_nat(v@.subrange(i as int, j as int)) > usize::MAX as nat,
            },
        decreases v@.len() - j,
    {
        let d = digit_char_val(v[j]);
        proof {
            assert(v@.subrange(i as int, j as int + 1).drop_last() =~= v@.subrange(
                i as int,
                j as int,
            ));
            assert(v@.subrange(i as int, j as int + 1).last() == v@[j as int]);
        }
        acc = match acc {
            Some(a) => {
                match a.checked_mul(10) {
                    Some(m10) => {
                        match m10.checked_add(d) {
                            Some(nv) => Some(nv),
                            None => None,
                        }
                    },
                    None => None,
                }
            },
            None => None,
        };
        j += 1;
        any = true;
    }
    proof {
        assert forall|k: int| 0 <= k < j - i implies is_digit(#[trigger] s[k]) by {
            assert(s[k] == v@[i + k]);
        }
        if j < v@.len() {
            assert(s[j - i] == v@[j as int]);
            assert(!is_digit(s[j - i]));
        }
        lemma_digits_end_run(s, 0, j - i);
        assert(s.subrange(0, j - i) =~= v@.subrange(i as int, j as int));
        assert(s.skip(j - i) =~= v@.skip(j as int));
    }
    if !any {
        return None;
    }
    match acc {
        Some(a) => Some((a, j)),
        None => None,
    }
}

/// Whether a character is a decimal digit.
fn is_digit_char(c: char) -> (r: bool)
    ensures
        r == is_digit(c),
{
    c == '0' || c == '1' || c == '2' || c == '3' || c == '4' || c == '5' || c == '6' || c == '7'
        || c == '8' || c == '9'
}

/// The value of a decimal digit.
fn digit_char_val(c: char) -> (r: usize)
    requires
        is_digit(c),
    ensures
        r as nat == digit_val(c),
{
    match c {
        '0' => 0,
        '1' => 1,
        '2' => 2,
        '3' => 3,
        '4' => 4,
        '5' => 5,
        '6' => 6,
        '7' => 7,
        '8' => 8,
        _ => 9,
    }
}

/// The role a persisted role name stands for.
fn p_role(name: &str) -> (r: Option<MessageFrom>)
    ensures
        r == parse_role(name@),
{
    if str_eq(name, "user") {
        Some(MessageFrom::User)
    } else if str_eq(name, "assistant") {
        Some(MessageFrom::Assistant)
    } else if str_eq(name, "system") {
        Some(MessageFrom::System)
    } else {
        None
    }
}

/// Consumes one message object starting at `i`.
fn p_message(v: &Vec<char>, i: usize) -> (r: Option<(Message, usize)>)
    requires
        i <= v@.len(),
    ensures
        match r {
            Some((m, j)) => i < j <= v@.len() && parse_message(v@.skip(i as int)) == Some(
                (m@, v@.skip(j as int)),
            ),
            None => parse_message(v@.skip(i as int)) is None,
        },
{
    proof {
        reveal_strlit("{\"role\":");
    }
    let j1 = match p_lit(v, i, "{\"role\":") {
        Some(j) => j,
        None => {
            return None;
        },
    };
    let (rn, j2) = match p_string(v, j1) {
        Some(x) => x,
        None => {
            return None;
        },
    };
    let from = match p_role(rn.as_str()) {
        Some(f) => f,
        None => {
            return None;
        },
    };
    let j3 = match p_lit(v, j2, ",\"content\":") {
        Some(j) => j,
        None => {
            return None;
        },
    };
    let (content, j4) = match p_string(v, j3) {
        Some(x) => x,
        None => {
            return None;
        },
    };
    let j5 = match p_lit(v, j4, "}") {
        Some(j) => j,
        None => {
            return None;
        },
    };
    proof {
        reveal_strlit("}");
    }
    Some((Message { from, content }, j5))
}

/// Consumes the members of a message array after the first, up to and
/// including the closing bracket.
fn p_messages_rest(v: &Vec<char>, i: usize, acc: Vec<Message>) -> (r: Option<(Vec<Message>, usize)>)
    requires
        i <= v@.len(),
    ensures
        match r {
            Some((ms, j)) => j <= v@.len() && parse_messages_rest(v@.skip(i as int), msgs_view(acc@))
                == Some((msgs_view(ms@), v@.skip(j as int))),
            None => parse_messages_rest(v@.skip(i as int), msgs_view(acc@)) is None,
        },
    decreases v@.len() - i,
{
    let ghost s = v@.skip(i as int);
    if i == v.len() {
        return None;
    }
    proof {
        assert(s[0] == v@[i as int]);
    }
    let c = v[i];
    if c == ']' {
        proof {
            assert(s.skip(1) =~= v@.skip(i as int + 1));
        }
        return Some((acc, i + 1));
    }
    if c == ',' {
        proof {
            assert(s.skip(1) =~= v@.skip(i as int + 1));
        }
        match p_message(v, i + 1) {
            Some((m, j)) => {
                let ghost accv = msgs_view(acc@);
                let ghost mv = m@;
                let mut acc = acc;
                let ghost prev = acc@;
                acc.push(m);
                proof {
                    assert forall|k: int| 0 <= k < acc@.len() implies msgs_view(acc@)[k]
                        == accv.push(mv)[k] by {
                        if k < prev.len() {
                            assert(acc@[k] == prev[k]);
                        } else {
                            assert(acc@[k]@ == mv);
                        }
                    }
                    assert(msgs_view(acc@) =~= accv.push(mv));
                }
                p_messages_rest(v, j, acc)
            },
            None => None,
        }
    } else {
        None
    }
}

/// Consumes a message array after its opening bracket.
fn p_messages(v: &Vec<char>, i: usize) -> (r: Option<(Vec<Message>, usize)>)
    requires
        i <= v@.len(),
    ensures
        match r {
            Some((ms, j)) => j <= v@.len() && parse_messages(v@.skip(i as int)) == Some(
                (msgs_view(ms@), v@.skip(j as int)),
            ),
            None => parse_messages(v@.skip(i as int)) is None,
        },
{
    let ghost s = v@.skip(i as int);
    if i == v.len() {
        return None;
    }
    proof {
        assert(s[0] == v@[i as int]);
    }
    if v[i] == ']' {
        let ms: Vec<Message> = Vec::new();
        proof {
            assert(s.skip(1) =~= v@.skip(i as int + 1));
            assert(msgs_view(ms@) =~= Seq::<MessageView>::empty());
        }
        return Some((ms, i + 1));
    }
    match p_message(v, i) {
        Some((m, j)) => {
            let ghost mv = m@;
            let mut acc: Vec<Message> = Vec::new();
            acc.push(m);
            proof {
                assert(msgs_view(acc@) =~= seq![mv]);
            }
            p_messages_rest(v, j, acc)
        },
        None => None,
    }
}

/// Parses a persisted branch document; `None` when the text is not a
/// well-formed document.
pub fn load_branch(s: &str) -> (r: Option<Branch>)
    ensures
        match r {
            Some(b) => parse_branch_text(s@) == Some(b@),
            None => parse_branch_text(s@) is None,
        },
{
    let v = to_char_vec(s);
    proof {
        assert(v@.skip(0) =~= s@);
    }
    let j1 = match p_lit(&v, 0, "{\"id\":") {
        Some(j) => j,
        None => {
            return None;
        },
    };
    let (id, j2) = match p_number(&v, j1) {
        Some(x) => x,
        None => {
            return None;
        },
    };
    let j3 = match p_lit(&v, j2, ",\"name\":") {
        Some(j) => j,
        None => {
            return None;
        },
    };
    let (name, j4) = match p_string(&v, j3) {
        Some(x) => x,
        None => {
            return None;
        },
    };
    let j5 = match p_lit(&v, j4, ",\"messages\":[") {
        Some(j) => j,
        None => {
            return None;
        },
    };
    let (ms, j6) = match p_messages(&v, j5) {
        Some(x) => x,
        None => {
            return None;
        },
    };
    let j7 = match p_lit(&v, j6, "}") {
        Some(j) => j,
        None => {
            return None;
        },
    };
    if j7 != v.len() {
        proof {
            assert(v@.skip(j7 as int).len() > 0);
        }
        return None;
    }
    proof {
        assert(v@.skip(j7 as int).len() == 0);
    }
    Some(Branch { id, name, messages: ms })
}

} // verus!
