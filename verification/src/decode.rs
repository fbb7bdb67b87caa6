//! Reading the JSON wire encoding back: a specification-level parser for the
//! exact encoding this crate emits, and the proof that it inverts the
//! encoder. The parser works over mathematical views of the response types,
//! since a `String` value cannot be assembled in specification code.

use vstd::prelude::*;
use crate::completions::Choice;
use crate::completions::CreateCompletionResponse;
use crate::completions::LogProbs;
use crate::completions::Usage;
use crate::text::digit_char;
use crate::wire::choice_items;
use crate::wire::int_items;
use crate::wire::json_choice;
use crate::wire::json_choice_array;
use crate::wire::json_i64_array;
use crate::wire::json_log_probs;
use crate::wire::json_raw_array;
use crate::wire::json_response;
use crate::wire::json_string_array;
use crate::wire::json_top_array;
use crate::wire::json_top_object;
use crate::wire::json_usage;
use crate::wire::jstr_items;
use crate::wire::raw_items;
use crate::wire::top_items;
use crate::wire::top_members;
use crate::text::escape_char;
use crate::text::escape_seq;
use crate::text::hex_char;
use crate::text::jstr;
use crate::text::spec_int_text;
use crate::text::spec_udigits;

verus! {

/// Is `c` a decimal digit?
pub open spec fn is_digit(c: char) -> bool {
    48 <= c as u32 <= 57
}

/// Numeric value of a digit character.
pub open spec fn digit_val(c: char) -> nat {
    (c as u32 - 48) as nat
}

/// Numeric value of a lower-case hexadecimal digit character, or 16 for any
/// other character.
pub open spec fn hex_val(c: char) -> nat {
    if is_digit(c) {
        digit_val(c)
    } else if c == 'a' {
        10
    } else if c == 'b' {
        11
    } else if c == 'c' {
        12
    } else if c == 'd' {
        13
    } else if c == 'e' {
        14
    } else if c == 'f' {
        15
    } else {
        16
    }
}

/// Consumes `lit` from the front of `s`.
pub open spec fn parse_lit(s: Seq<char>, lit: Seq<char>) -> Option<Seq<char>> {
    if lit.len() <= s.len() && s.subrange(0, lit.len() as int) == lit {
        Some(s.skip(lit.len() as int))
    } else {
        None
    }
}

/// Consuming a literal off the text it heads yields the tail.
pub proof fn lemma_parse_lit(lit: Seq<char>, rest: Seq<char>)
    ensures
        parse_lit(lit + rest, lit) == Some(rest),
{
    assert((lit + rest).subrange(0, lit.len() as int) =~= lit);
    assert((lit + rest).skip(lit.len() as int) =~= rest);
}

/// Reads the body of a JSON string literal up to and over its closing quote,
/// undoing the escapes of [`escape_char`]: the characters denoted, and the
/// text after the quote.
pub open spec fn parse_string_body(s: Seq<char>) -> Option<(Seq<char>, Seq<char>)>
    decreases s.len(),
{
    if s.len() == 0 {
        None
    } else if s[0] == '"' {
        Some((Seq::empty(), s.skip(1)))
    } else if s[0] == '\\' {
        if s.len() < 2 {
            None
        } else if s[1] == '"' || s[1] == '\\' {
            match parse_string_body(s.skip(2)) {
                Some(r) => Some((seq![s[1]] + r.0, r.1)),
                None => None,
            }
        } else if s[1] == 'n' {
            match parse_string_body(s.skip(2)) {
                Some(r) => Some((seq!['\n'] + r.0, r.1)),
                None => None,
            }
        } else if s[1] == 'r' {
            match parse_string_body(s.skip(2)) {
                Some(r) => Some((seq!['\r'] + r.0, r.1)),
                None => None,
            }
        } else if s[1] == 't' {
            match parse_string_body(s.skip(2)) {
                Some(r) => Some((seq!['\t'] + r.0, r.1)),
                None => None,
            }
        } else if s[1] == 'u' {
            if s.len() < 6 || s[2] != '0' || s[3] != '0' || hex_val(s[4]) >= 16 || hex_val(s[5])
                >= 16 {
                None
            } else {
                let v = 16 * hex_val(s[4]) + hex_val(s[5]);
                if v < 32 {
                    match parse_string_body(s.skip(6)) {
                        Some(r) => Some((seq![(v as u32) as char] + r.0, r.1)),
                        None => None,
                    }
                } else {
                    None
                }
            }
        } else {
            None
        }
    } else {
        match parse_string_body(s.skip(1)) {
            Some(r) => Some((seq![s[0]] + r.0, r.1)),
            None => None,
        }
    }
}

/// Reads a whole JSON string literal: an opening quote, then its body.
pub open spec fn parse_jstr(s: Seq<char>) -> Option<(Seq<char>, Seq<char>)> {
    if s.len() > 0 && s[0] == '"' {
        parse_string_body(s.skip(1))
    } else {
        None
    }
}

/// Reading an escaped body back yields the characters it encodes.
pub proof fn lemma_parse_string_body(t: Seq<char>, rest: Seq<char>)
    ensures
        parse_string_body(escape_seq(t) + seq!['"'] + rest) == Some((t, rest)),
    decreases t.len(),
{
    let s = escape_seq(t) + seq!['"'] + rest;
    if t.len() == 0 {
        assert(s =~= seq!['"'] + rest);
        assert(s[0] == '"');
        assert(s.skip(1) =~= rest);
    } else {
        let c = t[0];
        let e = escape_char(c);
        assert(escape_seq(t) == e + escape_seq(t.skip(1)));
        assert(s =~= e + (escape_seq(t.skip(1)) + seq!['"'] + rest));
        lemma_parse_string_body(t.skip(1), rest);
        let tail = escape_seq(t.skip(1)) + seq!['"'] + rest;
        if c == '"' {
            assert(e =~= seq!['\\', '"']);
            assert(s[0] == '\\' && s[1] == '"');
            assert(s.skip(2) =~= tail);
            assert(seq![s[1]] + t.skip(1) =~= t);
        } else if c == '\\' {
            assert(e =~= seq!['\\', '\\']);
            assert(s[0] == '\\' && s[1] == '\\');
            assert(s.skip(2) =~= tail);
            assert(seq![s[1]] + t.skip(1) =~= t);
        } else if c == '\n' {
            assert(e =~= seq!['\\', 'n']);
            assert(s[0] == '\\' && s[1] == 'n');
            assert(s.skip(2) =~= tail);
            assert(seq!['\n'] + t.skip(1) =~= t);
        } else if c == '\r' {
            assert(e =~= seq!['\\', 'r']);
            assert(s[0] == '\\' && s[1] == 'r');
            assert(s.skip(2) =~= tail);
            assert(seq!['\r'] + t.skip(1) =~= t);
        } else if c == '\t' {
            assert(e =~= seq!['\\', 't']);
            assert(s[0] == '\\' && s[1] == 't');
            assert(s.skip(2) =~= tail);
            assert(seq!['\t'] + t.skip(1) =~= t);
        } else if (c as u32) < 32 {
            let v = (c as u32) as int;
            assert(e =~= seq!['\\', 'u', '0', '0', hex_char(v / 16), hex_char(v % 16)]);
            assert(s[0] == '\\' && s[1] == 'u' && s[2] == '0' && s[3] == '0');
            assert(s[4] == hex_char(v / 16) && s[5] == hex_char(v % 16));
            assert(hex_val(hex_char(v / 16)) == v / 16);
            assert(hex_val(hex_char(v % 16)) == v % 16);
            assert(16 * hex_val(s[4]) + hex_val(s[5]) == v);
            assert(s.skip(6) =~= tail);
            vstd::utf8::char_u32_cast(c, v as u32);
            assert((v as u32) as char == c);
            assert(seq![(v as u32) as char] + t.skip(1) =~= t);
        } else {
            assert(e =~= seq![c]);
            assert(s[0] == c);
            assert(c != '"' && c != '\\');
            assert(s.skip(1) =~= tail);
            assert(seq![s[0]] + t.skip(1) =~= t);
        }
    }
}

/// Reading a JSON string literal back yields the string it encodes.
pub proof fn lemma_parse_jstr(t: Seq<char>, rest: Seq<char>)
    ensures
        parse_jstr(jstr(t) + rest) == Some((t, rest)),
{
    let s = jstr(t) + rest;
    assert(s[0] == '"');
    assert(s.skip(1) =~= escape_seq(t) + seq!['"'] + rest);
    lemma_parse_string_body(t, rest);
}

/// Reads a run of decimal digits, most significant first, into `acc`.
pub open spec fn parse_digits(s: Seq<char>, acc: nat) -> (nat, Seq<char>)
    decreases s.len(),
{
    if s.len() > 0 && is_digit(s[0]) {
        parse_digits(s.skip(1), acc * 10 + digit_val(s[0]))
    } else {
        (acc, s)
    }
}

/// Reads an optionally negated run of decimal digits.
pub open spec fn parse_int(s: Seq<char>) -> Option<(int, Seq<char>)> {
    if s.len() == 0 {
        None
    } else if s[0] == '-' {
        if s.len() > 1 && is_digit(s[1]) {
            let r = parse_digits(s.skip(1), 0);
            Some((-(r.0 as int), r.1))
        } else {
            None
        }
    } else if is_digit(s[0]) {
        let r = parse_digits(s, 0);
        Some((r.0 as int, r.1))
    } else {
        None
    }
}

/// How many digits the decimal text of `m` has.
pub open spec fn num_digits(m: nat) -> nat
    decreases m,
{
    if m < 10 {
        1
    } else {
        1 + num_digits(m / 10)
    }
}

/// Ten to the `k`.
pub open spec fn pow10(k: nat) -> nat
    decreases k,
{
    if k == 0 {
        1
    } else {
        10 * pow10((k - 1) as nat)
    }
}

/// The decimal text of a number is non-empty and all digits.
pub proof fn lemma_udigits_digits(m: nat)
    ensures
        spec_udigits(m).len() > 0,
        forall|k: int| 0 <= k < spec_udigits(m).len() ==> is_digit(#[trigger] spec_udigits(m)[k]),
    decreases m,
{
    if m < 10 {
        assert(spec_udigits(m) =~= seq![digit_char(m as int)]);
        assert(is_digit(digit_char(m as int)));
    } else {
        lemma_udigits_digits(m / 10);
        assert(is_digit(digit_char((m % 10) as int)));
        assert forall|k: int| 0 <= k < spec_udigits(m).len() implies is_digit(
            #[trigger] spec_udigits(m)[k],
        ) by {
            if k < spec_udigits(m / 10).len() {
                assert(spec_udigits(m)[k] == spec_udigits(m / 10)[k]);
            } else {
                assert(spec_udigits(m)[k] == digit_char((m % 10) as int));
            }
        }
    }
}

/// Reading the decimal text of `m` off the front of a text accumulates `m`
/// after the digits already read.
pub proof fn lemma_parse_digits_prefix(m: nat, rest: Seq<char>, acc: nat)
    ensures
        parse_digits(spec_udigits(m) + rest, acc) == parse_digits(
            rest,
            acc * pow10(num_digits(m)) + m,
        ),
    decreases m,
{
    let s = spec_udigits(m) + rest;
    if m < 10 {
        assert(spec_udigits(m) =~= seq![digit_char(m as int)]);
        assert(s[0] == digit_char(m as int));
        assert(is_digit(s[0]) && digit_val(s[0]) == m);
        assert(s.skip(1) =~= rest);
        assert(pow10(0) == 1);
        assert(pow10(1) == 10);
    } else {
        let d = digit_char((m % 10) as int);
        assert(s =~= spec_udigits(m / 10) + (seq![d] + rest));
        lemma_parse_digits_prefix(m / 10, seq![d] + rest, acc);
        let acc2 = acc * pow10(num_digits(m / 10)) + m / 10;
        let dseq = seq![d] + rest;
        assert(dseq[0] == d && is_digit(d) && digit_val(d) == m % 10);
        assert(dseq.skip(1) =~= rest);
        assert(parse_digits(dseq, acc2) == parse_digits(rest, acc2 * 10 + m % 10));
        assert(num_digits(m) == 1 + num_digits(m / 10));
        assert(pow10(num_digits(m)) == 10 * pow10(num_digits(m / 10)));
        assert((acc * pow10(num_digits(m / 10)) + m / 10) * 10 + m % 10 == acc * (10 * pow10(
            num_digits(m / 10),
        )) + (m / 10 * 10 + m % 10)) by (nonlinear_arith);
        assert(m / 10 * 10 + m % 10 == m) by (nonlinear_arith);
    }
}

/// Reading the decimal text of an integer back yields the integer, provided
/// no digit follows it.
pub proof fn lemma_parse_int_text(n: int, rest: Seq<char>)
    requires
        rest.len() == 0 || !is_digit(rest[0]),
    ensures
        parse_int(spec_int_text(n) + rest) == Some((n, rest)),
{
    let s = spec_int_text(n) + rest;
    if n < 0 {
        let m = (-n) as nat;
        lemma_udigits_digits(m);
        assert(s =~= seq!['-'] + (spec_udigits(m) + rest));
        assert(s[0] == '-');
        assert(!is_digit('-'));
        assert(s.skip(1) =~= spec_udigits(m) + rest);
        assert(s[1] == spec_udigits(m)[0]);
        lemma_parse_digits_prefix(m, rest, 0);
        assert(0 * pow10(num_digits(m)) + m == m);
        assert(parse_digits(rest, m) == (m, rest));
    } else {
        let m = n as nat;
        lemma_udigits_digits(m);
        assert(s[0] == spec_udigits(m)[0]);
        assert(is_digit(s[0]));
        assert(s[0] != '-');
        lemma_parse_digits_prefix(m, rest, 0);
        assert(0 * pow10(num_digits(m)) + m == m);
        assert(parse_digits(rest, m) == (m, rest));
    }
}

/// Is `c` a character that may appear in the decimal text of a number?
pub open spec fn is_num_char(c: char) -> bool {
    is_digit(c) || c == '-' || c == '+' || c == '.' || c == 'e' || c == 'E'
}

/// Is `t` a plausible number text: non-empty, made of number characters?
pub open spec fn wf_number(t: Seq<char>) -> bool {
    t.len() > 0 && forall|k: int| 0 <= k < t.len() ==> is_num_char(#[trigger] t[k])
}

/// Reads the longest run of number characters.
pub open spec fn parse_numtext(s: Seq<char>) -> (Seq<char>, Seq<char>)
    decreases s.len(),
{
    if s.len() > 0 && is_num_char(s[0]) {
        let r = parse_numtext(s.skip(1));
        (seq![s[0]] + r.0, r.1)
    } else {
        (Seq::empty(), s)
    }
}

/// Reads a number text verbatim; at least one number character is required.
pub open spec fn parse_rawnum(s: Seq<char>) -> Option<(Seq<char>, Seq<char>)> {
    let r = parse_numtext(s);
    if r.0.len() == 0 {
        None
    } else {
        Some(r)
    }
}

/// Reading a spliced number text back yields it verbatim, provided no number
/// character follows it.
pub proof fn lemma_parse_numtext(t: Seq<char>, rest: Seq<char>)
    requires
        forall|k: int| 0 <= k < t.len() ==> is_num_char(#[trigger] t[k]),
        rest.len() == 0 || !is_num_char(rest[0]),
    ensures
        parse_numtext(t + rest) == (t, rest),
    decreases t.len(),
{
    if t.len() == 0 {
        assert(t + rest =~= rest);
        assert(parse_numtext(rest) == (Seq::<char>::empty(), rest));
        assert(t =~= Seq::<char>::empty());
    } else {
        assert((t + rest)[0] == t[0]);
        assert((t + rest).skip(1) =~= t.skip(1) + rest);
        assert forall|k: int| 0 <= k < t.skip(1).len() implies is_num_char(
            #[trigger] t.skip(1)[k],
        ) by {
            assert(t.skip(1)[k] == t[k + 1]);
        }
        lemma_parse_numtext(t.skip(1), rest);
        assert(seq![t[0]] + t.skip(1) =~= t);
    }
}

/// [`parse_rawnum`] form of [`lemma_parse_numtext`].
pub proof fn lemma_parse_rawnum(t: Seq<char>, rest: Seq<char>)
    requires
        wf_number(t),
        rest.len() == 0 || !is_num_char(rest[0]),
    ensures
        parse_rawnum(t + rest) == Some((t, rest)),
{
    lemma_parse_numtext(t, rest);
}

/// Reads comma-separated items with `p` up to and over the closing `term`.
/// The fuel only bounds recursion; callers pass the input's length, which a
/// parse can never outrun since every item is at least one character.
pub open spec fn parse_items<T>(
    s: Seq<char>,
    fuel: nat,
    p: spec_fn(Seq<char>) -> Option<(T, Seq<char>)>,
    term: char,
) -> Option<(Seq<T>, Seq<char>)>
    decreases fuel,
{
    if fuel == 0 {
        None
    } else {
        match p(s) {
            None => None,
            Some(r) => {
                if r.1.len() > 0 && r.1[0] == ',' {
                    match parse_items(r.1.skip(1), (fuel - 1) as nat, p, term) {
                        None => None,
                        Some(r2) => Some((seq![r.0] + r2.0, r2.1)),
                    }
                } else if r.1.len() > 0 && r.1[0] == term {
                    Some((seq![r.0], r.1.skip(1)))
                } else {
                    None
                }
            },
        }
    }
}

/// Reads a bracketed, comma-separated list: `open`, items parsed with `p`,
/// `close`.
pub open spec fn parse_delimited<T>(
    s: Seq<char>,
    p: spec_fn(Seq<char>) -> Option<(T, Seq<char>)>,
    open: char,
    close: char,
) -> Option<(Seq<T>, Seq<char>)> {
    if s.len() >= 2 && s[0] == open && s[1] == close {
        Some((Seq::empty(), s.skip(2)))
    } else if s.len() > 0 && s[0] == open {
        parse_items(s.skip(1), s.len(), p, close)
    } else {
        None
    }
}

/// Reading encoded items joined with commas back yields the items' views,
/// provided `p` inverts the item encoding whenever a comma or the terminator
/// follows.
pub proof fn lemma_parse_items<T, V>(
    ts: Seq<T>,
    view: spec_fn(T) -> V,
    enc: spec_fn(T) -> Seq<char>,
    p: spec_fn(Seq<char>) -> Option<(V, Seq<char>)>,
    term: char,
    rest: Seq<char>,
    fuel: nat,
)
    requires
        ts.len() >= 1,
        fuel >= ts.len(),
        term != ',',
        forall|i: int, r: Seq<char>|
            0 <= i < ts.len() && r.len() > 0 && (r[0] == ',' || r[0] == term) ==> #[trigger] p(
                enc(ts[i]) + r,
            ) == Some((view(ts[i]), r)),
    ensures
        parse_items(
            crate::text::join_comma(Seq::new(ts.len(), |k: int| enc(ts[k]))) + seq![term] + rest,
            fuel,
            p,
            term,
        ) == Some((Seq::new(ts.len(), |k: int| view(ts[k])), rest)),
    decreases ts.len(),
{
    let items = Seq::new(ts.len(), |k: int| enc(ts[k]));
    let s = crate::text::join_comma(items) + seq![term] + rest;
    if ts.len() == 1 {
        assert(crate::text::join_comma(items) == items[0]);
        let r = seq![term] + rest;
        assert(s =~= enc(ts[0]) + r);
        assert(r[0] == term);
        assert(p(enc(ts[0]) + r) == Some((view(ts[0]), r)));
        assert(r.skip(1) =~= rest);
        assert(seq![view(ts[0])] =~= Seq::new(ts.len(), |k: int| view(ts[k])));
    } else {
        assert(crate::text::join_comma(items) == items[0] + seq![','] + crate::text::join_comma(
            items.skip(1),
        ));
        let tail = crate::text::join_comma(items.skip(1)) + seq![term] + rest;
        let r = seq![','] + tail;
        assert(s =~= enc(ts[0]) + r);
        assert(r[0] == ',');
        assert(p(enc(ts[0]) + r) == Some((view(ts[0]), r)));
        assert(r.skip(1) =~= tail);
        assert(Seq::new(ts.skip(1).len(), |k: int| enc(ts.skip(1)[k])) =~= items.skip(1));
        assert forall|i: int, r2: Seq<char>|
            0 <= i < ts.skip(1).len() && r2.len() > 0 && (r2[0] == ',' || r2[0] == term) implies #[trigger] p(
            enc(ts.skip(1)[i]) + r2,
        ) == Some((view(ts.skip(1)[i]), r2)) by {
            assert(ts.skip(1)[i] == ts[i + 1]);
        }
        lemma_parse_items(ts.skip(1), view, enc, p, term, rest, (fuel - 1) as nat);
        assert(seq![view(ts[0])] + Seq::new(ts.skip(1).len(), |k: int| view(ts.skip(1)[k])) =~= Seq::new(
            ts.len(),
            |k: int| view(ts[k]),
        ));
    }
}

/// Reading an encoded bracketed list back yields the items' views.
pub proof fn lemma_parse_delimited<T, V>(
    ts: Seq<T>,
    view: spec_fn(T) -> V,
    enc: spec_fn(T) -> Seq<char>,
    p: spec_fn(Seq<char>) -> Option<(V, Seq<char>)>,
    open: char,
    close: char,
    rest: Seq<char>,
)
    requires
        open != close,
        close != ',',
        forall|i: int| 0 <= i < ts.len() ==> (#[trigger] enc(ts[i])).len() > 0 && enc(ts[i])[0]
            != close,
        forall|i: int, r: Seq<char>|
            0 <= i < ts.len() && r.len() > 0 && (r[0] == ',' || r[0] == close) ==> #[trigger] p(
                enc(ts[i]) + r,
            ) == Some((view(ts[i]), r)),
    ensures
        parse_delimited(
            seq![open] + crate::text::join_comma(Seq::new(ts.len(), |k: int| enc(ts[k])))
                + seq![close] + rest,
            p,
            open,
            close,
        ) == Some((Seq::new(ts.len(), |k: int| view(ts[k])), rest)),
{
    let items = Seq::new(ts.len(), |k: int| enc(ts[k]));
    let s = seq![open] + crate::text::join_comma(items) + seq![close] + rest;
    assert(s[0] == open);
    if ts.len() == 0 {
        assert(crate::text::join_comma(items) =~= Seq::<char>::empty());
        assert(s =~= seq![open] + seq![close] + rest);
        assert(s[1] == close);
        assert(s.skip(2) =~= rest);
        assert(Seq::<V>::empty() =~= Seq::new(ts.len(), |k: int| view(ts[k])));
    } else {
        assert(items[0] == enc(ts[0]));
        if ts.len() == 1 {
            assert(crate::text::join_comma(items) == items[0]);
        } else {
            assert(crate::text::join_comma(items) == items[0] + seq![',']
                + crate::text::join_comma(items.skip(1)));
        }
        assert(crate::text::join_comma(items)[0] == enc(ts[0])[0]);
        assert(s[1] == enc(ts[0])[0]);
        assert(s[1] != close);
        assert(s.skip(1) =~= crate::text::join_comma(items) + seq![close] + rest);
        crate::text::lemma_join_comma_min_len(items);
        assert(s.len() >= ts.len());
        lemma_parse_items(ts, view, enc, p, close, rest, s.len());
    }
}

/// Mathematical view of [`LogProbs`]: each `String` as its characters, each
/// carried number as its text, each integer unbounded.
#[verifier::ext_equal]
pub ghost struct LogProbsView {
    pub tokens: Seq<Seq<char>>,
    pub token_log_probs: Seq<Seq<char>>,
    pub top_log_probs: Seq<Seq<(Seq<char>, Seq<char>)>>,
    pub text_offset: Seq<int>,
}

/// Mathematical view of [`Choice`].
#[verifier::ext_equal]
pub ghost struct ChoiceView {
    pub text: Seq<char>,
    pub index: int,
    pub log_probs: Option<LogProbsView>,
    pub finish_reason: Seq<char>,
}

/// Mathematical view of [`Usage`].
#[verifier::ext_equal]
pub ghost struct UsageView {
    pub prompt_tokens: int,
    pub completed_tokens: int,
    pub total_tokens: int,
}

/// Mathematical view of [`CreateCompletionResponse`].
#[verifier::ext_equal]
pub ghost struct ResponseView {
    pub id: Seq<char>,
    pub object: Seq<char>,
    pub created: int,
    pub model: Seq<char>,
    pub choices: Seq<ChoiceView>,
    pub usage: UsageView,
}

/// The character sequences of a sequence of strings.
pub open spec fn texts_of(v: Seq<String>) -> Seq<Seq<char>> {
    Seq::new(v.len(), |k: int| v[k]@)
}

/// The character-sequence pairs of a sequence of string pairs.
pub open spec fn pairs_of(v: Seq<(String, String)>) -> Seq<(Seq<char>, Seq<char>)> {
    Seq::new(v.len(), |k: int| (v[k].0@, v[k].1@))
}

/// The viewed candidate maps of a sequence of candidate maps.
pub open spec fn tops_of(v: Seq<Vec<(String, String)>>) -> Seq<Seq<(Seq<char>, Seq<char>)>> {
    Seq::new(v.len(), |k: int| pairs_of(v[k]@))
}

/// The unbounded integers of a sequence of machine integers.
pub open spec fn ints_of(v: Seq<i64>) -> Seq<int> {
    Seq::new(v.len(), |k: int| v[k] as int)
}

/// View of a [`LogProbs`] value.
pub open spec fn view_log_probs(lp: LogProbs) -> LogProbsView {
    LogProbsView {
        tokens: texts_of(lp.tokens@),
        token_log_probs: texts_of(lp.token_log_probs@),
        top_log_probs: tops_of(lp.top_log_probs@),
        text_offset: ints_of(lp.text_offset@),
    }
}

/// View of a [`Choice`] value.
pub open spec fn view_choice(c: Choice) -> ChoiceView {
    ChoiceView {
        text: c.text@,
        index: c.index as int,
        log_probs: match c.log_probs {
            Some(lp) => Some(view_log_probs(lp)),
            None => None,
        },
        finish_reason: c.finish_reason@,
    }
}

/// The views of a sequence of choices.
pub open spec fn choices_of(v: Seq<Choice>) -> Seq<ChoiceView> {
    Seq::new(v.len(), |k: int| view_choice(v[k]))
}

/// View of a [`Usage`] value.
pub open spec fn view_usage(u: Usage) -> UsageView {
    UsageView {
        prompt_tokens: u.prompt_tokens as int,
        completed_tokens: u.completed_tokens as int,
        total_tokens: u.total_tokens as int,
    }
}

/// View of a [`CreateCompletionResponse`] value.
pub open spec fn view_response(r: CreateCompletionResponse) -> ResponseView {
    ResponseView {
        id: r.id@,
        object: r.object@,
        created: r.created as int,
        model: r.model@,
        choices: choices_of(r.choices@),
        usage: view_usage(r.usage),
    }
}

/// Reads one member of a per-token candidate map: a quoted token, a colon,
/// and the log-probability text.
pub open spec fn parse_top_member(s: Seq<char>) -> Option<((Seq<char>, Seq<char>), Seq<char>)> {
    match parse_jstr(s) {
        None => None,
        Some(r) => {
            if r.1.len() > 0 && r.1[0] == ':' {
                match parse_rawnum(r.1.skip(1)) {
                    None => None,
                    Some(r2) => Some(((r.0, r2.0), r2.1)),
                }
            } else {
                None
            }
        },
    }
}

/// Reads one per-token candidate map.
pub open spec fn parse_top_object(s: Seq<char>) -> Option<
    (Seq<(Seq<char>, Seq<char>)>, Seq<char>),
> {
    parse_delimited(s, |x: Seq<char>| parse_top_member(x), '{', '}')
}

/// Reads a log-probability record.
pub open spec fn parse_log_probs(s: Seq<char>) -> Option<(LogProbsView, Seq<char>)> {
    match parse_lit(s, "{\"tokens\":"@) {
        None => None,
        Some(s1) => match parse_delimited(s1, |x: Seq<char>| parse_jstr(x), '[', ']') {
            None => None,
            Some(r1) => match parse_lit(r1.1, ",\"token_log_probs\":"@) {
                None => None,
                Some(s2) => match parse_delimited(s2, |x: Seq<char>| parse_rawnum(x), '[', ']') {
                    None => None,
                    Some(r2) => match parse_lit(r2.1, ",\"top_log_probs\":"@) {
                        None => None,
                        Some(s3) => match parse_delimited(
                            s3,
                            |x: Seq<char>| parse_top_object(x),
                            '[',
                            ']',
                        ) {
                            None => None,
                            Some(r3) => match parse_lit(r3.1, ",\"text_offset\":"@) {
                                None => None,
                                Some(s4) => match parse_delimited(
                                    s4,
                                    |x: Seq<char>| parse_int(x),
                                    '[',
                                    ']',
                                ) {
                                    None => None,
                                    Some(r4) => match parse_lit(r4.1, seq!['}']) {
                                        None => None,
                                        Some(s5) => Some(
                                            (
                                                LogProbsView {
                                                    tokens: r1.0,
                                                    token_log_probs: r2.0,
                                                    top_log_probs: r3.0,
                                                    text_offset: r4.0,
                                                },
                                                s5,
                                            ),
                                        ),
                                    },
                                },
                            },
                        },
                    },
                },
            },
        },
    }
}

/// Reads the tail of a choice: the finish reason and the closing brace.
pub open spec fn parse_choice_tail(
    s: Seq<char>,
    text: Seq<char>,
    index: int,
    lp: Option<LogProbsView>,
) -> Option<(ChoiceView, Seq<char>)> {
    match parse_lit(s, ",\"finish_reason\":"@) {
        None => None,
        Some(s1) => match parse_jstr(s1) {
            None => None,
            Some(r) => match parse_lit(r.1, seq!['}']) {
                None => None,
                Some(s2) => Some(
                    (ChoiceView { text, index, log_probs: lp, finish_reason: r.0 }, s2),
                ),
            },
        },
    }
}

/// Reads one choice; an absent log-probability record means the member was
/// omitted.
pub open spec fn parse_choice(s: Seq<char>) -> Option<(ChoiceView, Seq<char>)> {
    match parse_lit(s, "{\"text\":"@) {
        None => None,
        Some(s1) => match parse_jstr(s1) {
            None => None,
            Some(r1) => match parse_lit(r1.1, ",\"index\":"@) {
                None => None,
                Some(s2) => match parse_int(s2) {
                    None => None,
                    Some(r2) => match parse_lit(r2.1, ",\"log_probs\":"@) {
                        Some(s3) => match parse_log_probs(s3) {
                            None => None,
                            Some(r3) => parse_choice_tail(r3.1, r1.0, r2.0, Some(r3.0)),
                        },
                        None => parse_choice_tail(r2.1, r1.0, r2.0, None),
                    },
                },
            },
        },
    }
}

/// Reads a usage record.
pub open spec fn parse_usage(s: Seq<char>) -> Option<(UsageView, Seq<char>)> {
    match parse_lit(s, "{\"prompt_tokens\":"@) {
        None => None,
        Some(s1) => match parse_int(s1) {
            None => None,
            Some(r1) => match parse_lit(r1.1, ",\"completed_tokens\":"@) {
                None => None,
                Some(s2) => match parse_int(s2) {
                    None => None,
                    Some(r2) => match parse_lit(r2.1, ",\"total_tokens\":"@) {
                        None => None,
                        Some(s3) => match parse_int(s3) {
                            None => None,
                            Some(r3) => match parse_lit(r3.1, seq!['}']) {
                                None => None,
                                Some(s4) => Some(
                                    (
                                        UsageView {
                                            prompt_tokens: r1.0,
                                            completed_tokens: r2.0,
                                            total_tokens: r3.0,
                                        },
                                        s4,
                                    ),
                                ),
                            },
                        },
                    },
                },
            },
        },
    }
}

/// Reads a whole response body.
pub open spec fn parse_response(s: Seq<char>) -> Option<(ResponseView, Seq<char>)> {
    match parse_lit(s, "{\"id\":"@) {
        None => None,
        Some(s1) => match parse_jstr(s1) {
            None => None,
            Some(r1) => match parse_lit(r1.1, ",\"object\":"@) {
                None => None,
                Some(s2) => match parse_jstr(s2) {
                    None => None,
                    Some(r2) => match parse_lit(r2.1, ",\"created\":"@) {
                        None => None,
                        Some(s3) => match parse_int(s3) {
                            None => None,
                            Some(r3) => match parse_lit(r3.1, ",\"model\":"@) {
                                None => None,
                                Some(s4) => match parse_jstr(s4) {
                                    None => None,
                                    Some(r4) => match parse_lit(r4.1, ",\"choices\":"@) {
                                        None => None,
                                        Some(s5) => match parse_delimited(
                                            s5,
                                            |x: Seq<char>| parse_choice(x),
                                            '[',
                                            ']',
                                        ) {
                                            None => None,
                                            Some(r5) => match parse_lit(r5.1, ",\"usage\":"@) {
                                                None => None,
                                                Some(s6) => match parse_usage(s6) {
                                                    None => None,
                                                    Some(r6) => match parse_lit(r6.1, seq!['}']) {
                                                        None => None,
                                                        Some(s7) => Some(
                                                            (
                                                                ResponseView {
                                                                    id: r1.0,
                                                                    object: r2.0,
                                                                    created: r3.0,
                                                                    model: r4.0,
                                                                    choices: r5.0,
                                                                    usage: r6.0,
                                                                },
                                                                s7,
                                                            ),
                                                        ),
                                                    },
                                                },
                                            },
                                        },
                                    },
                                },
                            },
                        },
                    },
                },
            },
        },
    }
}

/// The log-probability entries a record carries are number texts, as a value
/// read from the wire always satisfies.
pub open spec fn log_probs_texts_wf(lp: LogProbs) -> bool {
    &&& forall|k: int|
        0 <= k < lp.token_log_probs@.len() ==> wf_number(#[trigger] lp.token_log_probs@[k]@)
    &&& forall|k: int, j: int|
        0 <= k < lp.top_log_probs@.len() && 0 <= j < lp.top_log_probs@[k]@.len() ==> wf_number(
            #[trigger] lp.top_log_probs@[k]@[j].1@,
        )
}

/// The log-probability texts of a choice, if it carries any, are number
/// texts.
pub open spec fn choice_texts_wf(c: Choice) -> bool {
    match c.log_probs {
        Some(lp) => log_probs_texts_wf(lp),
        None => true,
    }
}

/// Every log-probability text in the response is a number text.
pub open spec fn response_texts_wf(r: CreateCompletionResponse) -> bool {
    forall|k: int| 0 <= k < r.choices@.len() ==> choice_texts_wf(#[trigger] r.choices@[k])
}

/// Reading an encoded candidate-map member back yields its parts.
pub proof fn lemma_parse_top_member(t: (String, String), rest: Seq<char>)
    requires
        wf_number(t.1@),
        rest.len() > 0,
        rest[0] == ',' || rest[0] == '}',
    ensures
        parse_top_member((jstr(t.0@) + seq![':'] + t.1@) + rest) == Some(((t.0@, t.1@), rest)),
{
    let s = (jstr(t.0@) + seq![':'] + t.1@) + rest;
    let tail = seq![':'] + (t.1@ + rest);
    assert(s =~= jstr(t.0@) + tail);
    lemma_parse_jstr(t.0@, tail);
    assert(tail[0] == ':');
    assert(tail.skip(1) =~= t.1@ + rest);
    assert(!is_num_char(rest[0]));
    lemma_parse_rawnum(t.1@, rest);
}

/// Reading an encoded candidate map back yields its viewed pairs.
pub proof fn lemma_parse_top_object(v: Vec<(String, String)>, rest: Seq<char>)
    requires
        forall|k: int| 0 <= k < v@.len() ==> wf_number(#[trigger] v@[k].1@),
    ensures
        parse_top_object(json_top_object(v@) + rest) == Some((pairs_of(v@), rest)),
{
    let ts = v@;
    let viewf = |t: (String, String)| (t.0@, t.1@);
    let encf = |t: (String, String)| jstr(t.0@) + seq![':'] + t.1@;
    let pf = |x: Seq<char>| parse_top_member(x);
    assert forall|i: int| 0 <= i < ts.len() implies (#[trigger] encf(ts[i])).len() > 0 && encf(
        ts[i],
    )[0] != '}' by {
        assert(jstr(ts[i].0@)[0] == '"');
        assert(encf(ts[i])[0] == '"');
    }
    assert forall|i: int, r: Seq<char>|
        0 <= i < ts.len() && r.len() > 0 && (r[0] == ',' || r[0] == '}') implies #[trigger] pf(
        encf(ts[i]) + r,
    ) == Some((viewf(ts[i]), r)) by {
        lemma_parse_top_member(ts[i], r);
    }
    lemma_parse_delimited(ts, viewf, encf, pf, '{', '}', rest);
    assert(Seq::new(ts.len(), |k: int| encf(ts[k])) =~= top_members(v@));
    assert(Seq::new(ts.len(), |k: int| viewf(ts[k])) =~= pairs_of(v@));
    assert(seq!['{'] + crate::text::join_comma(top_members(v@)) + seq!['}'] + rest =~= json_top_object(
        v@,
    ) + rest);
}

/// Reading an encoded log-probability record back yields its view.
#[verifier::rlimit(50)]
pub proof fn lemma_parse_log_probs(lp: LogProbs, rest: Seq<char>)
    requires
        log_probs_texts_wf(lp),
    ensures
        parse_log_probs(json_log_probs(lp) + rest) == Some((view_log_probs(lp), rest)),
{
    let l1 = "{\"tokens\":"@;
    let l2 = ",\"token_log_probs\":"@;
    let l3 = ",\"top_log_probs\":"@;
    let l4 = ",\"text_offset\":"@;
    let a1 = json_string_array(lp.tokens@);
    let a2 = json_raw_array(lp.token_log_probs@);
    let a3 = json_top_array(lp.top_log_probs@);
    let a4 = json_i64_array(lp.text_offset@);
    let tail0 = seq!['}'] + rest;
    let s4 = a4 + tail0;
    let p4in = l4 + s4;
    let s3 = a3 + p4in;
    let p3in = l3 + s3;
    let s2 = a2 + p3in;
    let p2in = l2 + s2;
    let s1 = a1 + p2in;
    assert(json_log_probs(lp) + rest =~= l1 + s1);
    lemma_parse_lit(l1, s1);

    let viewf1 = |x: String| x@;
    let encf1 = |x: String| jstr(x@);
    let pf1 = |x: Seq<char>| parse_jstr(x);
    assert forall|i: int| 0 <= i < lp.tokens@.len() implies (#[trigger] encf1(
        lp.tokens@[i],
    )).len() > 0 && encf1(lp.tokens@[i])[0] != ']' by {
        assert(jstr(lp.tokens@[i]@)[0] == '"');
    }
    assert forall|i: int, r: Seq<char>|
        0 <= i < lp.tokens@.len() && r.len() > 0 && (r[0] == ',' || r[0] == ']') implies #[trigger] pf1(
        encf1(lp.tokens@[i]) + r,
    ) == Some((viewf1(lp.tokens@[i]), r)) by {
        lemma_parse_jstr(lp.tokens@[i]@, r);
    }
    lemma_parse_delimited(lp.tokens@, viewf1, encf1, pf1, '[', ']', p2in);
    assert(Seq::new(lp.tokens@.len(), |k: int| encf1(lp.tokens@[k])) =~= jstr_items(lp.tokens@));
    assert(Seq::new(lp.tokens@.len(), |k: int| viewf1(lp.tokens@[k])) =~= texts_of(lp.tokens@));
    assert(s1 =~= seq!['['] + crate::text::join_comma(jstr_items(lp.tokens@)) + seq![']'] + p2in);
    lemma_parse_lit(l2, s2);

    let viewf2 = |x: String| x@;
    let encf2 = |x: String| x@;
    let pf2 = |x: Seq<char>| parse_rawnum(x);
    assert forall|i: int| 0 <= i < lp.token_log_probs@.len() implies (#[trigger] encf2(
        lp.token_log_probs@[i],
    )).len() > 0 && encf2(lp.token_log_probs@[i])[0] != ']' by {
        assert(wf_number(lp.token_log_probs@[i]@));
        assert(is_num_char(lp.token_log_probs@[i]@[0]));
    }
    assert forall|i: int, r: Seq<char>|
        0 <= i < lp.token_log_probs@.len() && r.len() > 0 && (r[0] == ',' || r[0]
            == ']') implies #[trigger] pf2(encf2(lp.token_log_probs@[i]) + r) == Some(
        (viewf2(lp.token_log_probs@[i]), r),
    ) by {
        assert(!is_num_char(r[0]));
        lemma_parse_rawnum(lp.token_log_probs@[i]@, r);
    }
    lemma_parse_delimited(lp.token_log_probs@, viewf2, encf2, pf2, '[', ']', p3in);
    assert(Seq::new(lp.token_log_probs@.len(), |k: int| encf2(lp.token_log_probs@[k])) =~= raw_items(
        lp.token_log_probs@,
    ));
    assert(Seq::new(lp.token_log_probs@.len(), |k: int| viewf2(lp.token_log_probs@[k])) =~= texts_of(
        lp.token_log_probs@,
    ));
    assert(s2 =~= seq!['['] + crate::text::join_comma(raw_items(lp.token_log_probs@)) + seq![']']
        + p3in);
    lemma_parse_lit(l3, s3);

    let viewf3 = |x: Vec<(String, String)>| pairs_of(x@);
    let encf3 = |x: Vec<(String, String)>| json_top_object(x@);
    let pf3 = |x: Seq<char>| parse_top_object(x);
    assert forall|i: int| 0 <= i < lp.top_log_probs@.len() implies (#[trigger] encf3(
        lp.top_log_probs@[i],
    )).len() > 0 && encf3(lp.top_log_probs@[i])[0] != ']' by {
        assert(json_top_object(lp.top_log_probs@[i]@)[0] == '{');
    }
    assert forall|i: int, r: Seq<char>|
        0 <= i < lp.top_log_probs@.len() && r.len() > 0 && (r[0] == ',' || r[0]
            == ']') implies #[trigger] pf3(encf3(lp.top_log_probs@[i]) + r) == Some(
        (viewf3(lp.top_log_probs@[i]), r),
    ) by {
        lemma_parse_top_object(lp.top_log_probs@[i], r);
    }
    lemma_parse_delimited(lp.top_log_probs@, viewf3, encf3, pf3, '[', ']', p4in);
    assert(Seq::new(lp.top_log_probs@.len(), |k: int| encf3(lp.top_log_probs@[k])) =~= top_items(
        lp.top_log_probs@,
    ));
    assert(Seq::new(lp.top_log_probs@.len(), |k: int| viewf3(lp.top_log_probs@[k])) =~= tops_of(
        lp.top_log_probs@,
    ));
    assert(s3 =~= seq!['['] + crate::text::join_comma(top_items(lp.top_log_probs@)) + seq![']']
        + p4in);
    lemma_parse_lit(l4, s4);

    let viewf4 = |x: i64| x as int;
    let encf4 = |x: i64| spec_int_text(x as int);
    let pf4 = |x: Seq<char>| parse_int(x);
    assert forall|i: int| 0 <= i < lp.text_offset@.len() implies (#[trigger] encf4(
        lp.text_offset@[i],
    )).len() > 0 && encf4(lp.text_offset@[i])[0] != ']' by {
        let n = lp.text_offset@[i] as int;
        if n < 0 {
            lemma_udigits_digits((-n) as nat);
            assert(spec_int_text(n)[0] == '-');
        } else {
            lemma_udigits_digits(n as nat);
            assert(spec_int_text(n)[0] == spec_udigits(n as nat)[0]);
            assert(is_digit(spec_int_text(n)[0]));
        }
    }
    assert forall|i: int, r: Seq<char>|
        0 <= i < lp.text_offset@.len() && r.len() > 0 && (r[0] == ',' || r[0]
            == ']') implies #[trigger] pf4(encf4(lp.text_offset@[i]) + r) == Some(
        (viewf4(lp.text_offset@[i]), r),
    ) by {
        assert(!is_digit(r[0]));
        lemma_parse_int_text(lp.text_offset@[i] as int, r);
    }
    lemma_parse_delimited(lp.text_offset@, viewf4, encf4, pf4, '[', ']', tail0);
    assert(Seq::new(lp.text_offset@.len(), |k: int| encf4(lp.text_offset@[k])) =~= int_items(
        lp.text_offset@,
    ));
    assert(Seq::new(lp.text_offset@.len(), |k: int| viewf4(lp.text_offset@[k])) =~= ints_of(
        lp.text_offset@,
    ));
    assert(s4 =~= seq!['['] + crate::text::join_comma(int_items(lp.text_offset@)) + seq![']']
        + tail0);
    lemma_parse_lit(seq!['}'], rest);
}

/// Reading an encoded choice back yields its view.
#[verifier::rlimit(50)]
pub proof fn lemma_parse_choice(c: Choice, rest: Seq<char>)
    requires
        choice_texts_wf(c),
    ensures
        parse_choice(json_choice(c) + rest) == Some((view_choice(c), rest)),
{
    let lt = "{\"text\":"@;
    let li = ",\"index\":"@;
    let llp = ",\"log_probs\":"@;
    let lfr = ",\"finish_reason\":"@;
    reveal_strlit(",\"index\":");
    reveal_strlit(",\"log_probs\":");
    reveal_strlit(",\"finish_reason\":");
    let tail0 = seq!['}'] + rest;
    let sfr = jstr(c.finish_reason@) + tail0;
    let pfrin = lfr + sfr;
    match c.log_probs {
        Some(lp) => {
            let slp = json_log_probs(lp) + pfrin;
            let plpin = llp + slp;
            let sint = spec_int_text(c.index as int) + plpin;
            let piin = li + sint;
            let stext = jstr(c.text@) + piin;
            assert(json_choice(c) + rest =~= lt + stext);
            lemma_parse_lit(lt, stext);
            lemma_parse_jstr(c.text@, piin);
            lemma_parse_lit(li, sint);
            assert(plpin[0] == ',');
            assert(!is_digit(','));
            lemma_parse_int_text(c.index as int, plpin);
            lemma_parse_lit(llp, slp);
            lemma_parse_log_probs(lp, pfrin);
            lemma_parse_lit(lfr, sfr);
            lemma_parse_jstr(c.finish_reason@, tail0);
            lemma_parse_lit(seq!['}'], rest);
        },
        None => {
            let sint = spec_int_text(c.index as int) + pfrin;
            let piin = li + sint;
            let stext = jstr(c.text@) + piin;
            assert(json_choice(c) + rest =~= lt + stext);
            lemma_parse_lit(lt, stext);
            lemma_parse_jstr(c.text@, piin);
            lemma_parse_lit(li, sint);
            assert(pfrin[0] == ',');
            assert(!is_digit(','));
            lemma_parse_int_text(c.index as int, pfrin);
            if parse_lit(pfrin, llp) is Some {
                assert(pfrin.subrange(0, llp.len() as int) == llp);
                assert(pfrin.subrange(0, llp.len() as int)[2] == pfrin[2]);
                assert(pfrin[2] == lfr[2]);
                assert(lfr[2] == 'f');
                assert(llp[2] == 'l');
                assert(false);
            }
            lemma_parse_lit(lfr, sfr);
            lemma_parse_jstr(c.finish_reason@, tail0);
            lemma_parse_lit(seq!['}'], rest);
        },
    }
}

/// Reading an encoded usage record back yields its view.
pub proof fn lemma_parse_usage(u: Usage, rest: Seq<char>)
    ensures
        parse_usage(json_usage(u) + rest) == Some((view_usage(u), rest)),
{
    let l1 = "{\"prompt_tokens\":"@;
    let l2 = ",\"completed_tokens\":"@;
    let l3 = ",\"total_tokens\":"@;
    reveal_strlit(",\"completed_tokens\":");
    reveal_strlit(",\"total_tokens\":");
    let tail0 = seq!['}'] + rest;
    let e3 = spec_int_text(u.total_tokens as int) + tail0;
    let p3 = l3 + e3;
    let e2 = spec_int_text(u.completed_tokens as int) + p3;
    let p2 = l2 + e2;
    let e1 = spec_int_text(u.prompt_tokens as int) + p2;
    assert(json_usage(u) + rest =~= l1 + e1);
    lemma_parse_lit(l1, e1);
    assert(p2[0] == ',');
    assert(!is_digit(','));
    lemma_parse_int_text(u.prompt_tokens as int, p2);
    lemma_parse_lit(l2, e2);
    assert(p3[0] == ',');
    lemma_parse_int_text(u.completed_tokens as int, p3);
    lemma_parse_lit(l3, e3);
    assert(tail0[0] == '}');
    assert(!is_digit('}'));
    lemma_parse_int_text(u.total_tokens as int, tail0);
    lemma_parse_lit(seq!['}'], rest);
}

/// Reading an encoded response back yields its view.
#[verifier::rlimit(50)]
pub proof fn lemma_parse_response(r: CreateCompletionResponse, rest: Seq<char>)
    requires
        response_texts_wf(r),
    ensures
        parse_response(json_response(r) + rest) == Some((view_response(r), rest)),
{
    let l1 = "{\"id\":"@;
    let l2 = ",\"object\":"@;
    let l3 = ",\"created\":"@;
    let l4 = ",\"model\":"@;
    let l5 = ",\"choices\":"@;
    let l6 = ",\"usage\":"@;
    reveal_strlit(",\"model\":");
    reveal_strlit("{\"text\":");
    let tail0 = seq!['}'] + rest;
    let su = json_usage(r.usage) + tail0;
    let p6 = l6 + su;
    let sc = json_choice_array(r.choices@) + p6;
    let p5 = l5 + sc;
    let sm = jstr(r.model@) + p5;
    let p4 = l4 + sm;
    let si = spec_int_text(r.created as int) + p4;
    let p3 = l3 + si;
    let so = jstr(r.object@) + p3;
    let p2 = l2 + so;
    let sid = jstr(r.id@) + p2;
    assert(json_response(r) + rest =~= l1 + sid);
    lemma_parse_lit(l1, sid);
    lemma_parse_jstr(r.id@, p2);
    lemma_parse_lit(l2, so);
    lemma_parse_jstr(r.object@, p3);
    lemma_parse_lit(l3, si);
    assert(p4[0] == ',');
    assert(!is_digit(','));
    lemma_parse_int_text(r.created as int, p4);
    lemma_parse_lit(l4, sm);
    lemma_parse_jstr(r.model@, p5);
    lemma_parse_lit(l5, sc);

    let viewf = |x: Choice| view_choice(x);
    let encf = |x: Choice| json_choice(x);
    let pf = |x: Seq<char>| parse_choice(x);
    assert forall|i: int| 0 <= i < r.choices@.len() implies (#[trigger] encf(
        r.choices@[i],
    )).len() > 0 && encf(r.choices@[i])[0] != ']' by {
        assert(json_choice(r.choices@[i])[0] == '{');
    }
    assert forall|i: int, r2: Seq<char>|
        0 <= i < r.choices@.len() && r2.len() > 0 && (r2[0] == ',' || r2[0]
            == ']') implies #[trigger] pf(encf(r.choices@[i]) + r2) == Some(
        (viewf(r.choices@[i]), r2),
    ) by {
        lemma_parse_choice(r.choices@[i], r2);
    }
    lemma_parse_delimited(r.choices@, viewf, encf, pf, '[', ']', p6);
    assert(Seq::new(r.choices@.len(), |k: int| encf(r.choices@[k])) =~= choice_items(r.choices@));
    assert(Seq::new(r.choices@.len(), |k: int| viewf(r.choices@[k])) =~= choices_of(r.choices@));
    assert(sc =~= seq!['['] + crate::text::join_comma(choice_items(r.choices@)) + seq![']'] + p6);
    lemma_parse_lit(l6, su);
    lemma_parse_usage(r.usage, tail0);
    lemma_parse_lit(seq!['}'], rest);
}

/// The round trip: the JSON encoding of a response, read back, denotes the
/// same value, field for field, whether it holds no, one or many choices.
/// The one proviso is [`response_texts_wf`]: the carried log-probability
/// entries are number texts, as anything read from the wire is.
pub proof fn lemma_response_round_trip(r: CreateCompletionResponse)
    requires
        response_texts_wf(r),
    ensures
        parse_response(json_response(r)) == Some((view_response(r), Seq::<char>::empty())),
{
    lemma_parse_response(r, Seq::empty());
    assert(json_response(r) + Seq::<char>::empty() =~= json_response(r));
}

} // verus!

