//! The playlist persistence format: a JSON array of entry objects, rendered
//! and parsed entirely inside the library.
//!
//! Each entry is an object with the fields `path` (string), `title`,
//! `artist`, `album` (string or null) and `duration` (unsigned integer or
//! null), in that order — the order a saved playlist has always used. The
//! parser accepts that layout with arbitrary whitespace between tokens
//! (compact or pretty-printed), the string escapes `\" \\ \/ \b \f \n \r
//! \t`, and nothing else: fields out of order, unknown fields and `\u`
//! escapes are rejected rather than guessed at. Rendering escapes `"`, `\`
//! and the five control characters with short escapes; other characters are
//! emitted as themselves.
//!
//! [`roundtrip`] is the statement that parsing a rendered entry
//! sequence gives back exactly that sequence.

use vstd::prelude::*;

verus! {

use crate::playlist::{EntryView, PlaylistEntry};

/// Whitespace the parser skips between tokens.
pub open spec fn is_ws(c: char) -> bool {
    c == ' ' || c == '\n' || c == '\t' || c == '\r'
}

/// How one character is rendered inside a JSON string: itself, or a
/// two-character short escape.
pub open spec fn escape_char(c: char) -> Seq<char> {
    if c == '"' {
        seq!['\\', '"']
    } else if c == '\\' {
        seq!['\\', '\\']
    } else if c == '\u{8}' {
        seq!['\\', 'b']
    } else if c == '\u{c}' {
        seq!['\\', 'f']
    } else if c == '\n' {
        seq!['\\', 'n']
    } else if c == '\r' {
        seq!['\\', 'r']
    } else if c == '\t' {
        seq!['\\', 't']
    } else {
        seq![c]
    }
}

/// A whole string rendered with [`escape_char`], without the quotes.
pub open spec fn escape_seq(s: Seq<char>) -> Seq<char>
    decreases s.len(),
{
    if s.len() == 0 {
        Seq::empty()
    } else {
        escape_char(s[0]) + escape_seq(s.drop_first())
    }
}

/// A JSON string: quotes around the escaped content.
#[verifier::opaque]
pub open spec fn quoted(s: Seq<char>) -> Seq<char> {
    seq!['"'] + escape_seq(s) + seq!['"']
}

/// Numeric value of a digit character; 10 for anything that is no digit.
pub open spec fn digit_val(c: char) -> nat {
    if c == '0' {
        0
    } else if c == '1' {
        1
    } else if c == '2' {
        2
    } else if c == '3' {
        3
    } else if c == '4' {
        4
    } else if c == '5' {
        5
    } else if c == '6' {
        6
    } else if c == '7' {
        7
    } else if c == '8' {
        8
    } else if c == '9' {
        9
    } else {
        10
    }
}

pub open spec fn is_digit(c: char) -> bool {
    digit_val(c) < 10
}

/// The digit character for a value below ten.
pub open spec fn digit_char(d: nat) -> char {
    if d == 0 {
        '0'
    } else if d == 1 {
        '1'
    } else if d == 2 {
        '2'
    } else if d == 3 {
        '3'
    } else if d == 4 {
        '4'
    } else if d == 5 {
        '5'
    } else if d == 6 {
        '6'
    } else if d == 7 {
        '7'
    } else if d == 8 {
        '8'
    } else {
        '9'
    }
}

/// `n` in decimal, most significant digit first, no leading zeros.
pub open spec fn dec_digits(n: nat) -> Seq<char>
    decreases n,
{
    if n < 10 {
        seq![digit_char(n)]
    } else {
        dec_digits(n / 10) + seq![digit_char(n % 10)]
    }
}

#[verifier::opaque]
pub open spec fn null_chars() -> Seq<char> {
    seq!['n', 'u', 'l', 'l']
}

/// An optional string field: a JSON string or `null`.
#[verifier::opaque]
pub open spec fn ser_opt_text(v: Option<Seq<char>>) -> Seq<char> {
    match v {
        Some(s) => quoted(s),
        None => null_chars(),
    }
}

/// An optional number field: decimal digits or `null`.
#[verifier::opaque]
pub open spec fn ser_opt_num(v: Option<u64>) -> Seq<char> {
    match v {
        Some(n) => dec_digits(n as nat),
        None => null_chars(),
    }
}

#[verifier::opaque]
pub open spec fn key_path() -> Seq<char> {
    seq!['"', 'p', 'a', 't', 'h', '"', ':']
}

#[verifier::opaque]
pub open spec fn key_title() -> Seq<char> {
    seq!['"', 't', 'i', 't', 'l', 'e', '"', ':']
}

#[verifier::opaque]
pub open spec fn key_artist() -> Seq<char> {
    seq!['"', 'a', 'r', 't', 'i', 's', 't', '"', ':']
}

#[verifier::opaque]
pub open spec fn key_album() -> Seq<char> {
    seq!['"', 'a', 'l', 'b', 'u', 'm', '"', ':']
}

#[verifier::opaque]
pub open spec fn key_duration() -> Seq<char> {
    seq!['"', 'd', 'u', 'r', 'a', 't', 'i', 'o', 'n', '"', ':']
}

/// One entry as a JSON object, fields in their fixed order.
#[verifier::opaque]
pub open spec fn ser_entry(e: EntryView) -> Seq<char> {
    seq!['{'] + key_path() + quoted(e.path) + seq![','] + key_title() + ser_opt_text(e.title)
        + seq![','] + key_artist() + ser_opt_text(e.artist) + seq![','] + key_album()
        + ser_opt_text(e.album) + seq![','] + key_duration() + ser_opt_num(e.duration)
        + seq!['}']
}

/// Every entry of `s` rendered, each preceded by a comma.
pub open spec fn ser_tail(s: Seq<EntryView>) -> Seq<char>
    decreases s.len(),
{
    if s.len() == 0 {
        Seq::empty()
    } else {
        seq![','] + ser_entry(s[0]) + ser_tail(s.drop_first())
    }
}

/// The whole document: the entry sequence as a JSON array.
pub open spec fn ser_entries(s: Seq<EntryView>) -> Seq<char> {
    if s.len() == 0 {
        seq!['[', ']']
    } else {
        seq!['['] + ser_entry(s[0]) + ser_tail(s.drop_first()) + seq![']']
    }
}

/// `s` without its leading whitespace.
pub open spec fn skip_ws(s: Seq<char>) -> Seq<char>
    decreases s.len(),
{
    if s.len() > 0 && is_ws(s[0]) {
        skip_ws(s.drop_first())
    } else {
        s
    }
}

/// Consumes leading whitespace and then the single character `c`.
pub open spec fn expect(s: Seq<char>, c: char) -> Option<Seq<char>> {
    let t = skip_ws(s);
    if t.len() > 0 && t[0] == c {
        Some(t.drop_first())
    } else {
        None
    }
}

/// Consumes leading whitespace and then the exact token `tok`.
pub open spec fn expect_lit(s: Seq<char>, tok: Seq<char>) -> Option<Seq<char>> {
    let t = skip_ws(s);
    if tok.len() <= t.len() && t.subrange(0, tok.len() as int) == tok {
        Some(t.skip(tok.len() as int))
    } else {
        None
    }
}

/// The character named by the escape code `c`, or none for an unknown code.
pub open spec fn unescape_char(c: char) -> Option<char> {
    if c == '"' {
        Some('"')
    } else if c == '\\' {
        Some('\\')
    } else if c == '/' {
        Some('/')
    } else if c == 'b' {
        Some('\u{8}')
    } else if c == 'f' {
        Some('\u{c}')
    } else if c == 'n' {
        Some('\n')
    } else if c == 'r' {
        Some('\r')
    } else if c == 't' {
        Some('\t')
    } else {
        None
    }
}

/// The content of a JSON string after its opening quote: the unescaped
/// characters, and the rest of the input after the closing quote.
pub open spec fn parse_string_body(s: Seq<char>) -> Option<(Seq<char>, Seq<char>)>
    decreases s.len(),
{
    if s.len() == 0 {
        None
    } else if s[0] == '"' {
        Some((Seq::empty(), s.drop_first()))
    } else if s[0] == '\\' {
        if s.len() < 2 {
            None
        } else {
            match unescape_char(s[1]) {
                None => None,
                Some(c) => match parse_string_body(s.skip(2)) {
                    None => None,
                    Some((u, r)) => Some((seq![c] + u, r)),
                },
            }
        }
    } else {
        match parse_string_body(s.drop_first()) {
            None => None,
            Some((u, r)) => Some((seq![s[0]] + u, r)),
        }
    }
}

/// A quoted JSON string, leading whitespace allowed.
pub open spec fn parse_string(s: Seq<char>) -> Option<(Seq<char>, Seq<char>)> {
    match expect(s, '"') {
        None => None,
        Some(t) => parse_string_body(t),
    }
}

/// The longest digit run at the front of `s`.
pub open spec fn digits_prefix(s: Seq<char>) -> Seq<char>
    decreases s.len(),
{
    if s.len() > 0 && is_digit(s[0]) {
        seq![s[0]] + digits_prefix(s.drop_first())
    } else {
        Seq::empty()
    }
}

/// The value of a digit run, most significant digit first.
pub open spec fn val_of_digits(d: Seq<char>) -> nat
    decreases d.len(),
{
    if d.len() == 0 {
        0
    } else {
        val_of_digits(d.drop_last()) * 10 + digit_val(d.last())
    }
}

/// An unsigned decimal number that fits in 64 bits, leading whitespace
/// allowed; none when no digit follows or the value overflows.
pub open spec fn parse_u64(s: Seq<char>) -> Option<(u64, Seq<char>)> {
    let t = skip_ws(s);
    let d = digits_prefix(t);
    if d.len() == 0 || val_of_digits(d) > u64::MAX {
        None
    } else {
        Some((val_of_digits(d) as u64, t.skip(d.len() as int)))
    }
}

/// A string value or `null`.
pub open spec fn parse_opt_text(s: Seq<char>) -> Option<(Option<Seq<char>>, Seq<char>)> {
    let t = skip_ws(s);
    if t.len() > 0 && t[0] == 'n' {
        match expect_lit(s, null_chars()) {
            None => None,
            Some(r) => Some((None, r)),
        }
    } else {
        match parse_string(s) {
            None => None,
            Some((u, r)) => Some((Some(u), r)),
        }
    }
}

/// A number value or `null`.
pub open spec fn parse_opt_num(s: Seq<char>) -> Option<(Option<u64>, Seq<char>)> {
    let t = skip_ws(s);
    if t.len() > 0 && t[0] == 'n' {
        match expect_lit(s, null_chars()) {
            None => None,
            Some(r) => Some((None, r)),
        }
    } else {
        match parse_u64(s) {
            None => None,
            Some((n, r)) => Some((Some(n), r)),
        }
    }
}

/// One entry object: the five fields in their fixed order, with arbitrary
/// whitespace between tokens.
#[verifier::opaque]
pub open spec fn parse_entry(s: Seq<char>) -> Option<(EntryView, Seq<char>)> {
    match expect(s, '{') {
        None => None,
        Some(s1) => match expect_lit(s1, key_path()) {
            None => None,
            Some(s2) => match parse_string(s2) {
                None => None,
                Some((path, s3)) => match expect(s3, ',') {
                    None => None,
                    Some(s4) => match expect_lit(s4, key_title()) {
                        None => None,
                        Some(s5) => match parse_opt_text(s5) {
                            None => None,
                            Some((title, s6)) => match expect(s6, ',') {
                                None => None,
                                Some(s7) => match expect_lit(s7, key_artist()) {
                                    None => None,
                                    Some(s8) => match parse_opt_text(s8) {
                                        None => None,
                                        Some((artist, s9)) => match expect(s9, ',') {
                                            None => None,
                                            Some(s10) => match expect_lit(s10, key_album()) {
                                                None => None,
                                                Some(s11) => match parse_opt_text(s11) {
                                                    None => None,
                                                    Some((album, s12)) => match expect(s12, ',') {
                                                        None => None,
                                                        Some(s13) => match expect_lit(
                                                            s13,
                                                            key_duration(),
                                                        ) {
                                                            None => None,
                                                            Some(s14) => match parse_opt_num(s14) {
                                                                None => None,
                                                                Some((duration, s15)) => match expect(
                                                                    s15,
                                                                    '}',
                                                                ) {
                                                                    None => None,
                                                                    Some(s16) => Some(
                                                                        (
                                                                            EntryView {
                                                                                path: path,
                                                                                title: title,
                                                                                artist: artist,
                                                                                album: album,
                                                                                duration: duration,
                                                                            },
                                                                            s16,
                                                                        ),
                                                                    ),
                                                                },
                                                            },
                                                        },
                                                    },
                                                },
                                            },
                                        },
                                    },
                                },
                            },
                        },
                    },
                },
            },
        },
    }
}

proof fn lemma_skip_ws_len(s: Seq<char>)
    ensures
        skip_ws(s).len() <= s.len(),
    decreases s.len(),
{
    if s.len() > 0 && is_ws(s[0]) {
        lemma_skip_ws_len(s.drop_first());
    }
}

proof fn lemma_expect_len(s: Seq<char>, c: char)
    ensures
        expect(s, c) is Some ==> expect(s, c).unwrap().len() < s.len(),
{
    lemma_skip_ws_len(s);
}

proof fn lemma_expect_lit_len(s: Seq<char>, tok: Seq<char>)
    requires
        tok.len() >= 1,
    ensures
        expect_lit(s, tok) is Some ==> expect_lit(s, tok).unwrap().len() < s.len(),
{
    lemma_skip_ws_len(s);
}

proof fn lemma_parse_string_body_len(s: Seq<char>)
    ensures
        parse_string_body(s) is Some ==> parse_string_body(s).unwrap().1.len() < s.len(),
    decreases s.len(),
{
    if s.len() > 0 && s[0] != '"' {
        if s[0] == '\\' {
            if s.len() >= 2 {
                lemma_parse_string_body_len(s.skip(2));
            }
        } else {
            lemma_parse_string_body_len(s.drop_first());
        }
    }
}

proof fn lemma_parse_string_len(s: Seq<char>)
    ensures
        parse_string(s) is Some ==> parse_string(s).unwrap().1.len() < s.len(),
{
    lemma_expect_len(s, '"');
    if expect(s, '"') is Some {
        lemma_parse_string_body_len(expect(s, '"').unwrap());
    }
}

proof fn lemma_digits_prefix_len(s: Seq<char>)
    ensures
        digits_prefix(s).len() <= s.len(),
    decreases s.len(),
{
    if s.len() > 0 && is_digit(s[0]) {
        lemma_digits_prefix_len(s.drop_first());
    }
}

proof fn lemma_parse_u64_len(s: Seq<char>)
    ensures
        parse_u64(s) is Some ==> parse_u64(s).unwrap().1.len() < s.len(),
{
    lemma_skip_ws_len(s);
    lemma_digits_prefix_len(skip_ws(s));
}

proof fn lemma_parse_opt_text_len(s: Seq<char>)
    ensures
        parse_opt_text(s) is Some ==> parse_opt_text(s).unwrap().1.len() < s.len(),
{
    lemma_key_props();
    lemma_expect_lit_len(s, null_chars());
    lemma_parse_string_len(s);
}

proof fn lemma_parse_opt_num_len(s: Seq<char>)
    ensures
        parse_opt_num(s) is Some ==> parse_opt_num(s).unwrap().1.len() < s.len(),
{
    lemma_key_props();
    lemma_expect_lit_len(s, null_chars());
    lemma_parse_u64_len(s);
}

proof fn lemma_parse_entry_len(s: Seq<char>)
    ensures
        parse_entry(s) is Some ==> parse_entry(s).unwrap().1.len() < s.len(),
{
    reveal(parse_entry);
    lemma_key_props();
    lemma_expect_len(s, '{');
    if expect(s, '{') is Some {
        let s1 = expect(s, '{').unwrap();
        lemma_expect_lit_len(s1, key_path());
        if expect_lit(s1, key_path()) is Some {
            let s2 = expect_lit(s1, key_path()).unwrap();
            lemma_parse_string_len(s2);
            if parse_string(s2) is Some {
                let s3 = parse_string(s2).unwrap().1;
                lemma_expect_len(s3, ',');
                if expect(s3, ',') is Some {
                    let s4 = expect(s3, ',').unwrap();
                    lemma_expect_lit_len(s4, key_title());
                    if expect_lit(s4, key_title()) is Some {
                        let s5 = expect_lit(s4, key_title()).unwrap();
                        lemma_parse_opt_text_len(s5);
                        if parse_opt_text(s5) is Some {
                            let s6 = parse_opt_text(s5).unwrap().1;
                            lemma_expect_len(s6, ',');
                            if expect(s6, ',') is Some {
                                let s7 = expect(s6, ',').unwrap();
                                lemma_expect_lit_len(s7, key_artist());
                                if expect_lit(s7, key_artist()) is Some {
                                    let s8 = expect_lit(s7, key_artist()).unwrap();
                                    lemma_parse_opt_text_len(s8);
                                    if parse_opt_text(s8) is Some {
                                        let s9 = parse_opt_text(s8).unwrap().1;
                                        lemma_expect_len(s9, ',');
                                        if expect(s9, ',') is Some {
                                            let s10 = expect(s9, ',').unwrap();
                                            lemma_expect_lit_len(s10, key_album());
                                            if expect_lit(s10, key_album()) is Some {
                                                let s11 = expect_lit(s10, key_album()).unwrap();
                                                lemma_parse_opt_text_len(s11);
                                                if parse_opt_text(s11) is Some {
                                                    let s12 = parse_opt_text(s11).unwrap().1;
                                                    lemma_expect_len(s12, ',');
                                                    if expect(s12, ',') is Some {
                                                        let s13 = expect(s12, ',').unwrap();
                                                        lemma_expect_lit_len(s13, key_duration());
                                                        if expect_lit(s13, key_duration())
                                                            is Some {
                                                            let s14 = expect_lit(
                                                                s13,
                                                                key_duration(),
                                                            ).unwrap();
                                                            lemma_parse_opt_num_len(s14);
                                                            if parse_opt_num(s14) is Some {
                                                                let s15 = parse_opt_num(
                                                                    s14,
                                                                ).unwrap().1;
                                                                lemma_expect_len(s15, '}');
                                                            }
                                                        }
                                                    }
                                                }
                                            }
                                        }
                                    }
                                }
                            }
                        }
                    }
                }
            }
        }
    }
}

/// The entries after the first one: a `]` ends the list, a `,` introduces
/// the next entry. Returns the entries and the rest after the `]`.
pub open spec fn parse_tail(s: Seq<char>) -> Option<(Seq<EntryView>, Seq<char>)>
    decreases s.len(),
    via parse_tail_decreases
{
    let t = skip_ws(s);
    if t.len() == 0 {
        None
    } else if t[0] == ']' {
        Some((Seq::empty(), t.drop_first()))
    } else if t[0] == ',' {
        match parse_entry(t.drop_first()) {
            None => None,
            Some((e, r)) => match parse_tail(r) {
                None => None,
                Some((es, r2)) => Some((seq![e] + es, r2)),
            },
        }
    } else {
        None
    }
}

#[via_fn]
proof fn parse_tail_decreases(s: Seq<char>) {
    lemma_skip_ws_len(s);
    let t = skip_ws(s);
    if t.len() > 0 && t[0] != ']' && t[0] == ',' {
        lemma_parse_entry_len(t.drop_first());
    }
}

/// A whole playlist document: a JSON array of entry objects with nothing
/// but whitespace after it. Returns the entry sequence, or none when the
/// text is not of that shape.
pub open spec fn parse_entries(s: Seq<char>) -> Option<Seq<EntryView>> {
    match expect(s, '[') {
        None => None,
        Some(t0) => {
            let t = skip_ws(t0);
            if t.len() > 0 && t[0] == ']' {
                if skip_ws(t.drop_first()).len() == 0 {
                    Some(Seq::empty())
                } else {
                    None
                }
            } else {
                match parse_entry(t0) {
                    None => None,
                    Some((e, r)) => match parse_tail(r) {
                        None => None,
                        Some((es, r2)) => if skip_ws(r2).len() == 0 {
                            Some(seq![e] + es)
                        } else {
                            None
                        },
                    },
                }
            }
        },
    }
}

proof fn lemma_escape_snoc(x: Seq<char>, c: char)
    ensures
        escape_seq(x.push(c)) == escape_seq(x) + escape_char(c),
    decreases x.len(),
{
    if x.len() == 0 {
        assert(x.push(c)[0] == c);
        assert(x.push(c).drop_first() =~= Seq::<char>::empty());
        assert(escape_seq(Seq::<char>::empty()) =~= Seq::<char>::empty());
        assert(escape_seq(x.push(c)) == escape_char(c) + escape_seq(Seq::<char>::empty()));
        assert(escape_seq(x.push(c)) =~= escape_seq(x) + escape_char(c));
    } else {
        lemma_escape_snoc(x.drop_first(), c);
        assert(x.push(c)[0] == x[0]);
        assert(x.push(c).drop_first() =~= x.drop_first().push(c));
        assert(escape_seq(x) == escape_char(x[0]) + escape_seq(x.drop_first()));
        assert(escape_seq(x.push(c)) == escape_char(x[0]) + escape_seq(x.drop_first().push(c)));
        assert(escape_char(x[0]) + (escape_seq(x.drop_first()) + escape_char(c)) =~= (escape_char(
            x[0],
        ) + escape_seq(x.drop_first())) + escape_char(c));
        assert(escape_seq(x.push(c)) =~= escape_seq(x) + escape_char(c));
    }
}

proof fn lemma_ser_tail_snoc(s: Seq<EntryView>, e: EntryView)
    ensures
        ser_tail(s.push(e)) == ser_tail(s) + seq![','] + ser_entry(e),
    decreases s.len(),
{
    if s.len() == 0 {
        assert(s.push(e)[0] == e);
        assert(s.push(e).drop_first() =~= Seq::<EntryView>::empty());
        assert(ser_tail(Seq::<EntryView>::empty()) =~= Seq::<char>::empty());
        assert(ser_tail(s.push(e)) == seq![','] + ser_entry(e) + ser_tail(
            Seq::<EntryView>::empty(),
        ));
        assert(ser_tail(s.push(e)) =~= ser_tail(s) + seq![','] + ser_entry(e));
    } else {
        lemma_ser_tail_snoc(s.drop_first(), e);
        assert(s.push(e)[0] == s[0]);
        assert(s.push(e).drop_first() =~= s.drop_first().push(e));
        assert(ser_tail(s) == seq![','] + ser_entry(s[0]) + ser_tail(s.drop_first()));
        assert(ser_tail(s.push(e)) == seq![','] + ser_entry(s[0]) + ser_tail(
            s.drop_first().push(e),
        ));
        assert(ser_tail(s.push(e)) =~= ser_tail(s) + seq![','] + ser_entry(e));
    }
}

/// Relies on `String::push`: appends the given character to the end of the
/// string.
#[verifier::external_body]
fn push_char(s: &mut String, c: char)
    ensures
        final(s)@ == old(s)@.push(c),
{
    s.push(c);
}

/// The string holding exactly the characters of `v`, in order.
fn string_from_chars(v: &Vec<char>) -> (r: String)
    ensures
        r@ == v@,
{
    let mut r = String::new();
    let mut i: usize = 0;
    while i < v.len()
        invariant
            i <= v@.len(),
            r@ =~= v@.subrange(0, i as int),
        decreases v@.len() - i,
    {
        push_char(&mut r, v[i]);
        proof {
            assert(r@ =~= v@.subrange(0, i + 1));
        }
        i = i + 1;
    }
    proof {
        assert(r@ =~= v@);
    }
    r
}

/// Appends `escape_seq(s@)` to `out`.
fn push_escaped(out: &mut Vec<char>, s: &str)
    ensures
        final(out)@ == old(out)@ + escape_seq(s@),
{
    let n = s.unicode_len();
    let mut i: usize = 0;
    while i < n
        invariant
            n == s@.len(),
            i <= n,
            out@ == old(out)@ + escape_seq(s@.subrange(0, i as int)),
        decreases n - i,
    {
        let c = s.get_char(i);
        if c == '"' {
            out.push('\\');
            out.push('"');
        } else if c == '\\' {
            out.push('\\');
            out.push('\\');
        } else if c == '\u{8}' {
            out.push('\\');
            out.push('b');
        } else if c == '\u{c}' {
            out.push('\\');
            out.push('f');
        } else if c == '\n' {
            out.push('\\');
            out.push('n');
        } else if c == '\r' {
            out.push('\\');
            out.push('r');
        } else if c == '\t' {
            out.push('\\');
            out.push('t');
        } else {
            out.push(c);
        }
        proof {
            lemma_escape_snoc(s@.subrange(0, i as int), s@[i as int]);
            assert(s@.subrange(0, i + 1) =~= s@.subrange(0, i as int).push(s@[i as int]));
            assert(out@ =~= old(out)@ + escape_seq(s@.subrange(0, i + 1)));
        }
        i = i + 1;
    }
    proof {
        assert(s@.subrange(0, n as int) =~= s@);
    }
}

/// The digit character of a value below ten.
fn digit_exec(d: u64) -> (r: char)
    requires
        d < 10,
    ensures
        r == digit_char(d as nat),
{
    if d == 0 {
        '0'
    } else if d == 1 {
        '1'
    } else if d == 2 {
        '2'
    } else if d == 3 {
        '3'
    } else if d == 4 {
        '4'
    } else if d == 5 {
        '5'
    } else if d == 6 {
        '6'
    } else if d == 7 {
        '7'
    } else if d == 8 {
        '8'
    } else {
        '9'
    }
}

/// Appends the decimal digits of `n` to `out`.
fn push_u64(out: &mut Vec<char>, n: u64)
    ensures
        final(out)@ == old(out)@ + dec_digits(n as nat),
    decreases n,
{
    if n < 10 {
        out.push(digit_exec(n));
        proof {
            assert(out@ =~= old(out)@ + dec_digits(n as nat));
        }
    } else {
        push_u64(out, n / 10);
        out.push(digit_exec(n % 10));
        proof {
            assert(out@ =~= old(out)@ + dec_digits(n as nat));
        }
    }
}

fn push_null(out: &mut Vec<char>)
    ensures
        final(out)@ == old(out)@ + null_chars(),
{
    out.push('n');
    out.push('u');
    out.push('l');
    out.push('l');
    proof {
        reveal(null_chars);
        assert(out@ =~= old(out)@ + null_chars());
    }
}

/// Appends a quoted, escaped JSON string to `out`.
fn push_quoted(out: &mut Vec<char>, s: &String)
    ensures
        final(out)@ == old(out)@ + quoted(s@),
{
    out.push('"');
    push_escaped(out, s.as_str());
    out.push('"');
    proof {
        reveal(quoted);
        assert(out@ =~= old(out)@ + quoted(s@));
    }
}

fn push_opt_text(out: &mut Vec<char>, v: &Option<String>)
    ensures
        final(out)@ == old(out)@ + ser_opt_text(v.deep_view()),
{
    proof {
        reveal(ser_opt_text);
    }
    match v {
        Some(s) => push_quoted(out, s),
        None => push_null(out),
    }
}

fn push_opt_num(out: &mut Vec<char>, v: &Option<u64>)
    ensures
        final(out)@ == old(out)@ + ser_opt_num(*v),
{
    proof {
        reveal(ser_opt_num);
    }
    match v {
        Some(n) => push_u64(out, *n),
        None => push_null(out),
    }
}

fn push_key_path(out: &mut Vec<char>)
    ensures
        final(out)@ == old(out)@ + key_path(),
{
    out.push('"');
    out.push('p');
    out.push('a');
    out.push('t');
    out.push('h');
    out.push('"');
    out.push(':');
    proof {
        reveal(key_path);
        assert(out@ =~= old(out)@ + key_path());
    }
}

fn push_key_title(out: &mut Vec<char>)
    ensures
        final(out)@ == old(out)@ + key_title(),
{
    out.push('"');
    out.push('t');
    out.push('i');
    out.push('t');
    out.push('l');
    out.push('e');
    out.push('"');
    out.push(':');
    proof {
        reveal(key_title);
        assert(out@ =~= old(out)@ + key_title());
    }
}

fn push_key_artist(out: &mut Vec<char>)
    ensures
        final(out)@ == old(out)@ + key_artist(),
{
    out.push('"');
    out.push('a');
    out.push('r');
    out.push('t');
    out.push('i');
    out.push('s');
    out.push('t');
    out.push('"');
    out.push(':');
    proof {
        reveal(key_artist);
        assert(out@ =~= old(out)@ + key_artist());
    }
}

fn push_key_album(out: &mut Vec<char>)
    ensures
        final(out)@ == old(out)@ + key_album(),
{
    out.push('"');
    out.push('a');
    out.push('l');
    out.push('b');
    out.push('u');
    out.push('m');
    out.push('"');
    out.push(':');
    proof {
        reveal(key_album);
        assert(out@ =~= old(out)@ + key_album());
    }
}

fn push_key_duration(out: &mut Vec<char>)
    ensures
        final(out)@ == old(out)@ + key_duration(),
{
    out.push('"');
    out.push('d');
    out.push('u');
    out.push('r');
    out.push('a');
    out.push('t');
    out.push('i');
    out.push('o');
    out.push('n');
    out.push('"');
    out.push(':');
    proof {
        reveal(key_duration);
        assert(out@ =~= old(out)@ + key_duration());
    }
}

/// Appends `ser_entry(e@)` to `out`.
#[verifier::rlimit(100)]
fn push_entry(out: &mut Vec<char>, e: &PlaylistEntry)
    ensures
        final(out)@ == old(out)@ + ser_entry(e.deep_view()),
{
    out.push('{');
    push_key_path(out);
    push_quoted(out, &e.path);
    out.push(',');
    push_key_title(out);
    push_opt_text(out, &e.title);
    out.push(',');
    push_key_artist(out);
    push_opt_text(out, &e.artist);
    out.push(',');
    push_key_album(out);
    push_opt_text(out, &e.album);
    out.push(',');
    push_key_duration(out);
    push_opt_num(out, &e.duration);
    out.push('}');
    proof {
        reveal(ser_entry);
        assert(out@ =~= old(out)@ + ser_entry(e.deep_view()));
    }
}

proof fn lemma_key_props()
    ensures
        key_path().len() >= 1,
        !is_ws(key_path()[0]),
        key_title().len() >= 1,
        !is_ws(key_title()[0]),
        key_artist().len() >= 1,
        !is_ws(key_artist()[0]),
        key_album().len() >= 1,
        !is_ws(key_album()[0]),
        key_duration().len() >= 1,
        !is_ws(key_duration()[0]),
        null_chars().len() >= 1,
        null_chars()[0] == 'n',
{
    reveal(key_path);
    reveal(key_title);
    reveal(key_artist);
    reveal(key_album);
    reveal(key_duration);
    reveal(null_chars);
}

proof fn lemma_assoc(a: Seq<char>, b: Seq<char>, c: Seq<char>)
    ensures
        (a + b) + c =~= a + (b + c),
{
}

proof fn lemma_expect_prefix(c: char, r: Seq<char>)
    requires
        !is_ws(c),
    ensures
        expect(seq![c] + r, c) == Some(r),
{
    let s = seq![c] + r;
    assert(s[0] == c);
    assert(skip_ws(s) == s);
    assert(s.drop_first() =~= r);
}

proof fn lemma_expect_lit_prefix(tok: Seq<char>, r: Seq<char>)
    requires
        tok.len() >= 1,
        !is_ws(tok[0]),
    ensures
        expect_lit(tok + r, tok) == Some(r),
{
    let s = tok + r;
    assert(s[0] == tok[0]);
    assert(skip_ws(s) == s);
    assert(s.subrange(0, tok.len() as int) =~= tok);
    assert(s.skip(tok.len() as int) =~= r);
}

proof fn lemma_psb_roundtrip(x: Seq<char>, r: Seq<char>)
    ensures
        parse_string_body(escape_seq(x) + (seq!['"'] + r)) == Some((x, r)),
    decreases x.len(),
{
    let s = escape_seq(x) + (seq!['"'] + r);
    if x.len() == 0 {
        assert(s =~= seq!['"'] + r);
        assert(s[0] == '"');
        assert(s.drop_first() =~= r);
        assert(x =~= Seq::<char>::empty());
    } else {
        lemma_psb_roundtrip(x.drop_first(), r);
        let e0 = escape_char(x[0]);
        let tail = escape_seq(x.drop_first()) + (seq!['"'] + r);
        assert(escape_seq(x) == e0 + escape_seq(x.drop_first()));
        assert(s =~= e0 + tail);
        if e0.len() == 2 {
            assert(s[0] == '\\');
            assert(s[1] == e0[1]);
            assert(unescape_char(e0[1]) == Some(x[0]));
            assert(s.skip(2) =~= tail);
            assert(parse_string_body(s) == Some((seq![x[0]] + x.drop_first(), r)));
            assert(seq![x[0]] + x.drop_first() =~= x);
        } else {
            assert(e0 =~= seq![x[0]]);
            assert(s[0] == x[0]);
            assert(x[0] != '"' && x[0] != '\\');
            assert(s.drop_first() =~= tail);
            assert(parse_string_body(s) == Some((seq![x[0]] + x.drop_first(), r)));
            assert(seq![x[0]] + x.drop_first() =~= x);
        }
    }
}

proof fn lemma_parse_string_quoted(x: Seq<char>, r: Seq<char>)
    ensures
        parse_string(quoted(x) + r) == Some((x, r)),
{
    reveal(quoted);
    let s = quoted(x) + r;
    let body = escape_seq(x) + (seq!['"'] + r);
    assert(s =~= seq!['"'] + body);
    lemma_expect_prefix('"', body);
    assert(expect(s, '"') == Some(body));
    lemma_psb_roundtrip(x, r);
}

proof fn lemma_dec_digits_digits(n: nat)
    ensures
        dec_digits(n).len() >= 1,
        forall|m: int| 0 <= m < dec_digits(n).len() ==> is_digit(#[trigger] dec_digits(n)[m]),
    decreases n,
{
    if n < 10 {
        assert(is_digit(digit_char(n)));
    } else {
        lemma_dec_digits_digits(n / 10);
        assert(is_digit(digit_char(n % 10)));
        assert forall|m: int| 0 <= m < dec_digits(n).len() implies is_digit(
            #[trigger] dec_digits(n)[m],
        ) by {
            if m < dec_digits(n / 10).len() {
                assert(dec_digits(n)[m] == dec_digits(n / 10)[m]);
            } else {
                assert(dec_digits(n)[m] == digit_char(n % 10));
            }
        }
    }
}

proof fn lemma_val_of_dec(n: nat)
    ensures
        val_of_digits(dec_digits(n)) == n,
    decreases n,
{
    if n < 10 {
        assert(dec_digits(n).drop_last() =~= Seq::<char>::empty());
        assert(dec_digits(n).last() == digit_char(n));
        assert(digit_val(digit_char(n)) == n);
        assert(val_of_digits(Seq::<char>::empty()) == 0);
        assert(val_of_digits(dec_digits(n)) == 0 * 10 + digit_val(digit_char(n)));
    } else {
        lemma_val_of_dec(n / 10);
        let d = dec_digits(n);
        assert(d.drop_last() =~= dec_digits(n / 10));
        assert(d.last() == digit_char(n % 10));
        vstd::arithmetic::div_mod::lemma_mod_bound(n as int, 10);
        assert(digit_val(digit_char(n % 10)) == n % 10);
        assert(val_of_digits(d) == val_of_digits(dec_digits(n / 10)) * 10 + digit_val(
            digit_char(n % 10),
        ));
        assert(val_of_digits(d) == (n / 10) * 10 + (n % 10));
        vstd::arithmetic::div_mod::lemma_fundamental_div_mod(n as int, 10);
    }
}

proof fn lemma_parse_u64_roundtrip(n: u64, r: Seq<char>)
    requires
        r.len() == 0 || !is_digit(r[0]),
    ensures
        parse_u64(dec_digits(n as nat) + r) == Some((n, r)),
{
    let d = dec_digits(n as nat);
    let s = d + r;
    lemma_dec_digits_digits(n as nat);
    assert(s[0] == d[0]);
    assert(!is_ws(d[0]));
    assert(skip_ws(s) == s);
    lemma_digits_prefix_concat(d, r);
    lemma_val_of_dec(n as nat);
    assert(s.skip(d.len() as int) =~= r);
}

proof fn lemma_parse_opt_text_roundtrip(v: Option<Seq<char>>, r: Seq<char>)
    ensures
        parse_opt_text(ser_opt_text(v) + r) == Some((v, r)),
{
    lemma_key_props();
    reveal(ser_opt_text);
    reveal(quoted);
    match v {
        None => {
            let s = null_chars() + r;
            assert(s[0] == 'n');
            assert(skip_ws(s) == s);
            lemma_expect_lit_prefix(null_chars(), r);
        },
        Some(x) => {
            let s = quoted(x) + r;
            assert(s[0] == '"');
            assert(skip_ws(s) == s);
            lemma_parse_string_quoted(x, r);
        },
    }
}

proof fn lemma_parse_opt_num_roundtrip(v: Option<u64>, r: Seq<char>)
    requires
        r.len() == 0 || !is_digit(r[0]),
    ensures
        parse_opt_num(ser_opt_num(v) + r) == Some((v, r)),
{
    lemma_key_props();
    reveal(ser_opt_num);
    match v {
        None => {
            let s = null_chars() + r;
            assert(s[0] == 'n');
            assert(skip_ws(s) == s);
            lemma_expect_lit_prefix(null_chars(), r);
        },
        Some(n) => {
            let s = dec_digits(n as nat) + r;
            lemma_dec_digits_digits(n as nat);
            assert(s[0] == dec_digits(n as nat)[0]);
            assert(s[0] != 'n');
            assert(skip_ws(s) == s);
            lemma_parse_u64_roundtrip(n, r);
        },
    }
}

/// `ser_entry(e) + rest`, re-associated so that each token stands at the
/// head of a right-nested chain.
#[verifier::rlimit(100)]
proof fn lemma_ser_entry_assoc(e: EntryView, rest: Seq<char>)
    ensures
        ser_entry(e) + rest == seq!['{'] + (key_path() + (quoted(e.path) + (seq![','] + (
        key_title() + (ser_opt_text(e.title) + (seq![','] + (key_artist() + (ser_opt_text(
            e.artist,
        ) + (seq![','] + (key_album() + (ser_opt_text(e.album) + (seq![','] + (key_duration() + (
        ser_opt_num(e.duration) + (seq!['}'] + rest))))))))))))))),
{
    reveal(ser_entry);
    let r15 = seq!['}'] + rest;
    let r14 = ser_opt_num(e.duration) + r15;
    let r13 = key_duration() + r14;
    let r12 = seq![','] + r13;
    let r11 = ser_opt_text(e.album) + r12;
    let r10 = key_album() + r11;
    let r9 = seq![','] + r10;
    let r8 = ser_opt_text(e.artist) + r9;
    let r7 = key_artist() + r8;
    let r6 = seq![','] + r7;
    let r5 = ser_opt_text(e.title) + r6;
    let r4 = key_title() + r5;
    let r3 = seq![','] + r4;
    let r2 = quoted(e.path) + r3;
    let r1 = key_path() + r2;
    let l1 = seq!['{'] + key_path();
    let l2 = l1 + quoted(e.path);
    let l3 = l2 + seq![','];
    let l4 = l3 + key_title();
    let l5 = l4 + ser_opt_text(e.title);
    let l6 = l5 + seq![','];
    let l7 = l6 + key_artist();
    let l8 = l7 + ser_opt_text(e.artist);
    let l9 = l8 + seq![','];
    let l10 = l9 + key_album();
    let l11 = l10 + ser_opt_text(e.album);
    let l12 = l11 + seq![','];
    let l13 = l12 + key_duration();
    let l14 = l13 + ser_opt_num(e.duration);
    assert(ser_entry(e) == l14 + seq!['}']);
    let input = ser_entry(e) + rest;
    lemma_assoc(l14, seq!['}'], rest);
    assert(input == l14 + r15);
    lemma_assoc(l13, ser_opt_num(e.duration), r15);
    assert(input == l13 + r14);
    lemma_assoc(l12, key_duration(), r14);
    assert(input == l12 + r13);
    lemma_assoc(l11, seq![','], r13);
    assert(input == l11 + r12);
    lemma_assoc(l10, ser_opt_text(e.album), r12);
    assert(input == l10 + r11);
    lemma_assoc(l9, key_album(), r11);
    assert(input == l9 + r10);
    lemma_assoc(l8, seq![','], r10);
    assert(input == l8 + r9);
    lemma_assoc(l7, ser_opt_text(e.artist), r9);
    assert(input == l7 + r8);
    lemma_assoc(l6, key_artist(), r8);
    assert(input == l6 + r7);
    lemma_assoc(l5, seq![','], r7);
    assert(input == l5 + r6);
    lemma_assoc(l4, ser_opt_text(e.title), r6);
    assert(input == l4 + r5);
    lemma_assoc(l3, key_title(), r5);
    assert(input == l3 + r4);
    lemma_assoc(l2, seq![','], r4);
    assert(input == l2 + r3);
    lemma_assoc(l1, quoted(e.path), r3);
    assert(input == l1 + r2);
    lemma_assoc(seq!['{'], key_path(), r2);
    assert(input == seq!['{'] + r1);
}

/// `parse_entry` reduced step by step over abstract intermediate suffixes.
proof fn lemma_parse_entry_steps(
    input: Seq<char>,
    r1: Seq<char>,
    r2: Seq<char>,
    r3: Seq<char>,
    r4: Seq<char>,
    r5: Seq<char>,
    r6: Seq<char>,
    r7: Seq<char>,
    r8: Seq<char>,
    r9: Seq<char>,
    r10: Seq<char>,
    r11: Seq<char>,
    r12: Seq<char>,
    r13: Seq<char>,
    r14: Seq<char>,
    r15: Seq<char>,
    e: EntryView,
    rest: Seq<char>,
)
    requires
        expect(input, '{') == Some(r1),
        expect_lit(r1, key_path()) == Some(r2),
        parse_string(r2) == Some((e.path, r3)),
        expect(r3, ',') == Some(r4),
        expect_lit(r4, key_title()) == Some(r5),
        parse_opt_text(r5) == Some((e.title, r6)),
        expect(r6, ',') == Some(r7),
        expect_lit(r7, key_artist()) == Some(r8),
        parse_opt_text(r8) == Some((e.artist, r9)),
        expect(r9, ',') == Some(r10),
        expect_lit(r10, key_album()) == Some(r11),
        parse_opt_text(r11) == Some((e.album, r12)),
        expect(r12, ',') == Some(r13),
        expect_lit(r13, key_duration()) == Some(r14),
        parse_opt_num(r14) == Some((e.duration, r15)),
        expect(r15, '}') == Some(rest),
    ensures
        parse_entry(input) == Some((e, rest)),
{
    reveal(parse_entry);
    assert(EntryView {
        path: e.path,
        title: e.title,
        artist: e.artist,
        album: e.album,
        duration: e.duration,
    } =~= e);
}

#[verifier::rlimit(100)]
proof fn lemma_parse_entry_roundtrip(e: EntryView, rest: Seq<char>)
    ensures
        parse_entry(ser_entry(e) + rest) == Some((e, rest)),
{
    lemma_key_props();
    let r15 = seq!['}'] + rest;
    let r14 = ser_opt_num(e.duration) + r15;
    let r13 = key_duration() + r14;
    let r12 = seq![','] + r13;
    let r11 = ser_opt_text(e.album) + r12;
    let r10 = key_album() + r11;
    let r9 = seq![','] + r10;
    let r8 = ser_opt_text(e.artist) + r9;
    let r7 = key_artist() + r8;
    let r6 = seq![','] + r7;
    let r5 = ser_opt_text(e.title) + r6;
    let r4 = key_title() + r5;
    let r3 = seq![','] + r4;
    let r2 = quoted(e.path) + r3;
    let r1 = key_path() + r2;
    let input = ser_entry(e) + rest;
    lemma_ser_entry_assoc(e, rest);
    assert(input == seq!['{'] + r1);
    lemma_expect_prefix('{', r1);
    assert(expect(input, '{') == Some(r1));
    lemma_expect_lit_prefix(key_path(), r2);
    assert(expect_lit(r1, key_path()) == Some(r2));
    lemma_parse_string_quoted(e.path, r3);
    assert(parse_string(r2) == Some((e.path, r3)));
    lemma_expect_prefix(',', r4);
    assert(expect(r3, ',') == Some(r4));
    lemma_expect_lit_prefix(key_title(), r5);
    assert(expect_lit(r4, key_title()) == Some(r5));
    lemma_parse_opt_text_roundtrip(e.title, r6);
    assert(parse_opt_text(r5) == Some((e.title, r6)));
    lemma_expect_prefix(',', r7);
    assert(expect(r6, ',') == Some(r7));
    lemma_expect_lit_prefix(key_artist(), r8);
    assert(expect_lit(r7, key_artist()) == Some(r8));
    lemma_parse_opt_text_roundtrip(e.artist, r9);
    assert(parse_opt_text(r8) == Some((e.artist, r9)));
    lemma_expect_prefix(',', r10);
    assert(expect(r9, ',') == Some(r10));
    lemma_expect_lit_prefix(key_album(), r11);
    assert(expect_lit(r10, key_album()) == Some(r11));
    lemma_parse_opt_text_roundtrip(e.album, r12);
    assert(parse_opt_text(r11) == Some((e.album, r12)));
    lemma_expect_prefix(',', r13);
    assert(expect(r12, ',') == Some(r13));
    lemma_expect_lit_prefix(key_duration(), r14);
    assert(expect_lit(r13, key_duration()) == Some(r14));
    assert(r15[0] == '}');
    lemma_parse_opt_num_roundtrip(e.duration, r15);
    assert(parse_opt_num(r14) == Some((e.duration, r15)));
    lemma_expect_prefix('}', rest);
    assert(expect(r15, '}') == Some(rest));
    lemma_parse_entry_steps(
        input,
        r1,
        r2,
        r3,
        r4,
        r5,
        r6,
        r7,
        r8,
        r9,
        r10,
        r11,
        r12,
        r13,
        r14,
        r15,
        e,
        rest,
    );
}

proof fn lemma_parse_tail_roundtrip(s: Seq<EntryView>, rest: Seq<char>)
    ensures
        parse_tail(ser_tail(s) + (seq![']'] + rest)) == Some((s, rest)),
    decreases s.len(),
{
    let input = ser_tail(s) + (seq![']'] + rest);
    if s.len() == 0 {
        assert(input =~= seq![']'] + rest);
        assert(input[0] == ']');
        assert(skip_ws(input) == input);
        assert(input.drop_first() =~= rest);
        assert(s =~= Seq::<EntryView>::empty());
    } else {
        lemma_parse_tail_roundtrip(s.drop_first(), rest);
        let inner = ser_tail(s.drop_first()) + (seq![']'] + rest);
        assert(ser_tail(s) == seq![','] + ser_entry(s[0]) + ser_tail(s.drop_first()));
        assert(input =~= seq![','] + (ser_entry(s[0]) + inner));
        assert(input[0] == ',');
        assert(skip_ws(input) == input);
        assert(input.drop_first() =~= ser_entry(s[0]) + inner);
        lemma_parse_entry_roundtrip(s[0], inner);
        assert(seq![s[0]] + s.drop_first() =~= s);
    }
}

/// Parsing a rendered entry sequence gives back exactly that sequence,
/// field for field: `save_to_json` followed by `load_from_json` reproduces
/// the entries.
pub proof fn lemma_render_parse_roundtrip(s: Seq<EntryView>)
    ensures
        parse_entries(ser_entries(s)) == Some(s),
{
    let input = ser_entries(s);
    if s.len() == 0 {
        assert(input =~= seq!['['] + seq![']']);
        lemma_expect_prefix('[', seq![']']);
        assert(expect(input, '[') == Some(seq![']']));
        assert(skip_ws(seq![']']) == seq![']']);
        assert(seq![']'].drop_first() =~= Seq::<char>::empty());
        assert(skip_ws(Seq::<char>::empty()).len() == 0);
    } else {
        let inner = ser_tail(s.drop_first()) + (seq![']'] + Seq::<char>::empty());
        let t0 = ser_entry(s[0]) + inner;
        assert(input =~= seq!['['] + t0);
        lemma_expect_prefix('[', t0);
        assert(expect(input, '[') == Some(t0));
        reveal(ser_entry);
        assert(ser_entry(s[0])[0] == '{');
        assert(t0[0] == '{');
        assert(skip_ws(t0) == t0);
        lemma_parse_entry_roundtrip(s[0], inner);
        lemma_parse_tail_roundtrip(s.drop_first(), Seq::<char>::empty());
        assert(skip_ws(Seq::<char>::empty()).len() == 0);
        assert(seq![s[0]] + s.drop_first() =~= s);
    }
}

/// The characters of `s`, as a vector.
fn chars_of(s: &str) -> (r: Vec<char>)
    ensures
        r@ == s@,
{
    let n = s.unicode_len();
    let mut out: Vec<char> = Vec::new();
    let mut i: usize = 0;
    while i < n
        invariant
            n == s@.len(),
            i <= n,
            out@ =~= s@.subrange(0, i as int),
        decreases n - i,
    {
        out.push(s.get_char(i));
        proof {
            assert(out@ =~= s@.subrange(0, i + 1));
        }
        i = i + 1;
    }
    proof {
        assert(out@ =~= s@);
    }
    out
}

fn is_ws_exec(c: char) -> (r: bool)
    ensures
        r == is_ws(c),
{
    c == ' ' || c == '\n' || c == '\t' || c == '\r'
}

/// Position after the leading whitespace from `i`.
fn ws_exec(s: &Vec<char>, i: usize) -> (r: usize)
    requires
        i <= s@.len(),
    ensures
        i <= r <= s@.len(),
        s@.skip(r as int) == skip_ws(s@.skip(i as int)),
{
    let mut j = i;
    while j < s.len() && is_ws_exec(s[j])
        invariant
            i <= j <= s@.len(),
            skip_ws(s@.skip(i as int)) == skip_ws(s@.skip(j as int)),
        decreases s@.len() - j,
    {
        proof {
            assert(s@.skip(j as int).drop_first() =~= s@.skip(j + 1));
        }
        j = j + 1;
    }
    proof {
        assert(skip_ws(s@.skip(j as int)) == s@.skip(j as int));
    }
    j
}

/// Consumes whitespace and then the single character `c` from position `i`.
fn expect_exec(s: &Vec<char>, i: usize, c: char) -> (r: Option<usize>)
    requires
        i <= s@.len(),
    ensures
        match r {
            Some(j) => i <= j <= s@.len() && expect(s@.skip(i as int), c) == Some(
                s@.skip(j as int),
            ),
            None => expect(s@.skip(i as int), c) is None,
        },
{
    let j = ws_exec(s, i);
    if j < s.len() && s[j] == c {
        proof {
            assert(s@.skip(j as int).drop_first() =~= s@.skip(j + 1));
        }
        Some(j + 1)
    } else {
        None
    }
}

/// Consumes whitespace and then the exact token `tok` from position `i`.
fn expect_chars(s: &Vec<char>, i: usize, tok: &Vec<char>) -> (r: Option<usize>)
    requires
        i <= s@.len(),
    ensures
        match r {
            Some(j) => i <= j <= s@.len() && expect_lit(s@.skip(i as int), tok@) == Some(
                s@.skip(j as int),
            ),
            None => expect_lit(s@.skip(i as int), tok@) is None,
        },
{
    let j = ws_exec(s, i);
    let ghost t = skip_ws(s@.skip(i as int));
    if s.len() - j < tok.len() {
        proof {
            assert(t.len() < tok@.len());
        }
        return None;
    }
    let n = s.len();
    let mut k: usize = 0;
    while k < tok.len()
        invariant
            t == skip_ws(s@.skip(i as int)),
            t == s@.skip(j as int),
            i <= j <= s@.len(),
            n == s@.len(),
            j + tok@.len() <= s@.len(),
            k <= tok@.len(),
            forall|m: int| 0 <= m < k ==> s@[j + m] == tok@[m],
        decreases tok@.len() - k,
    {
        if s[j + k] != tok[k] {
            proof {
                assert(t[k as int] == s@[j + k]);
                if t.subrange(0, tok@.len() as int) == tok@ {
                    assert(t.subrange(0, tok@.len() as int)[k as int] == tok@[k as int]);
                }
            }
            return None;
        }
        k = k + 1;
    }
    proof {
        assert(t.subrange(0, tok@.len() as int) =~= tok@);
        assert(t.skip(tok@.len() as int) =~= s@.skip(j + tok@.len()));
    }
    Some(j + tok.len())
}

fn tok_path_exec() -> (r: Vec<char>)
    ensures
        r@ == key_path(),
{
    let mut t: Vec<char> = Vec::new();
    t.push('"');
    t.push('p');
    t.push('a');
    t.push('t');
    t.push('h');
    t.push('"');
    t.push(':');
    proof {
        reveal(key_path);
        assert(t@ =~= key_path());
    }
    t
}

fn tok_title_exec() -> (r: Vec<char>)
    ensures
        r@ == key_title(),
{
    let mut t: Vec<char> = Vec::new();
    t.push('"');
    t.push('t');
    t.push('i');
    t.push('t');
    t.push('l');
    t.push('e');
    t.push('"');
    t.push(':');
    proof {
        reveal(key_title);
        assert(t@ =~= key_title());
    }
    t
}

fn tok_artist_exec() -> (r: Vec<char>)
    ensures
        r@ == key_artist(),
{
    let mut t: Vec<char> = Vec::new();
    t.push('"');
    t.push('a');
    t.push('r');
    t.push('t');
    t.push('i');
    t.push('s');
    t.push('t');
    t.push('"');
    t.push(':');
    proof {
        reveal(key_artist);
        assert(t@ =~= key_artist());
    }
    t
}

fn tok_album_exec() -> (r: Vec<char>)
    ensures
        r@ == key_album(),
{
    let mut t: Vec<char> = Vec::new();
    t.push('"');
    t.push('a');
    t.push('l');
    t.push('b');
    t.push('u');
    t.push('m');
    t.push('"');
    t.push(':');
    proof {
        reveal(key_album);
        assert(t@ =~= key_album());
    }
    t
}

fn tok_duration_exec() -> (r: Vec<char>)
    ensures
        r@ == key_duration(),
{
    let mut t: Vec<char> = Vec::new();
    t.push('"');
    t.push('d');
    t.push('u');
    t.push('r');
    t.push('a');
    t.push('t');
    t.push('i');
    t.push('o');
    t.push('n');
    t.push('"');
    t.push(':');
    proof {
        reveal(key_duration);
        assert(t@ =~= key_duration());
    }
    t
}

fn tok_null_exec() -> (r: Vec<char>)
    ensures
        r@ == null_chars(),
{
    let mut t: Vec<char> = Vec::new();
    t.push('n');
    t.push('u');
    t.push('l');
    t.push('l');
    proof {
        reveal(null_chars);
        assert(t@ =~= null_chars());
    }
    t
}

fn unescape_exec(c: char) -> (r: Option<char>)
    ensures
        r == unescape_char(c),
{
    if c == '"' {
        Some('"')
    } else if c == '\\' {
        Some('\\')
    } else if c == '/' {
        Some('/')
    } else if c == 'b' {
        Some('\u{8}')
    } else if c == 'f' {
        Some('\u{c}')
    } else if c == 'n' {
        Some('\n')
    } else if c == 'r' {
        Some('\r')
    } else if c == 't' {
        Some('\t')
    } else {
        None
    }
}

/// A quoted JSON string starting at `i`; returns its unescaped content and
/// the position after the closing quote.
fn p_string(s: &Vec<char>, i: usize) -> (r: Option<(String, usize)>)
    requires
        i <= s@.len(),
    ensures
        match r {
            Some((u, j)) => i <= j <= s@.len() && parse_string(s@.skip(i as int)) == Some(
                (u@, s@.skip(j as int)),
            ),
            None => parse_string(s@.skip(i as int)) is None,
        },
{
    let j0 = match expect_exec(s, i, '"') {
        Some(j) => j,
        None => {
            return None;
        },
    };
    let mut out: Vec<char> = Vec::new();
    let mut j = j0;
    while j < s.len()
        invariant
            i <= j0 <= j <= s@.len(),
            expect(s@.skip(i as int), '"') == Some(s@.skip(j0 as int)),
            match parse_string_body(s@.skip(j as int)) {
                Some((u2, r2)) => parse_string_body(s@.skip(j0 as int)) == Some((out@ + u2, r2)),
                None => parse_string_body(s@.skip(j0 as int)) is None,
            },
        decreases s@.len() - j,
    {
        let c = s[j];
        if c == '"' {
            proof {
                assert(s@.skip(j as int).drop_first() =~= s@.skip(j + 1));
                assert(out@ + Seq::<char>::empty() =~= out@);
            }
            let res = string_from_chars(&out);
            return Some((res, j + 1));
        } else if c == '\\' {
            if j + 1 >= s.len() {
                proof {
                    assert(s@.skip(j as int).len() < 2);
                }
                return None;
            }
            let e = s[j + 1];
            let u = match unescape_exec(e) {
                Some(u) => u,
                None => {
                    return None;
                },
            };
            let ghost prev_out = out@;
            out.push(u);
            proof {
                assert(s@.skip(j as int)[1] == e);
                assert(s@.skip(j as int).skip(2) =~= s@.skip(j + 2));
                if parse_string_body(s@.skip(j + 2)) is Some {
                    let pr = parse_string_body(s@.skip(j + 2)).unwrap();
                    assert(prev_out + (seq![u] + pr.0) =~= out@ + pr.0);
                }
            }
            j = j + 2;
        } else {
            let ghost prev_out = out@;
            out.push(c);
            proof {
                assert(s@.skip(j as int).drop_first() =~= s@.skip(j + 1));
                if parse_string_body(s@.skip(j + 1)) is Some {
                    let pr = parse_string_body(s@.skip(j + 1)).unwrap();
                    assert(prev_out + (seq![c] + pr.0) =~= out@ + pr.0);
                }
            }
            j = j + 1;
        }
    }
    proof {
        assert(s@.skip(j as int).len() == 0);
    }
    None
}

fn is_digit_exec(c: char) -> (r: bool)
    ensures
        r == is_digit(c),
{
    c == '0' || c == '1' || c == '2' || c == '3' || c == '4' || c == '5' || c == '6' || c == '7'
        || c == '8' || c == '9'
}

fn digit_val_exec(c: char) -> (r: u64)
    requires
        is_digit(c),
    ensures
        r == digit_val(c),
{
    if c == '0' {
        0
    } else if c == '1' {
        1
    } else if c == '2' {
        2
    } else if c == '3' {
        3
    } else if c == '4' {
        4
    } else if c == '5' {
        5
    } else if c == '6' {
        6
    } else if c == '7' {
        7
    } else if c == '8' {
        8
    } else {
        9
    }
}

proof fn lemma_digits_prefix_concat(d: Seq<char>, rest: Seq<char>)
    requires
        forall|m: int| 0 <= m < d.len() ==> is_digit(#[trigger] d[m]),
        rest.len() == 0 || !is_digit(rest[0]),
    ensures
        digits_prefix(d + rest) == d,
    decreases d.len(),
{
    if d.len() == 0 {
        assert(d + rest =~= rest);
    } else {
        lemma_digits_prefix_concat(d.drop_first(), rest);
        assert((d + rest)[0] == d[0]);
        assert((d + rest).drop_first() =~= d.drop_first() + rest);
        assert(digits_prefix(d + rest) == seq![d[0]] + digits_prefix(d.drop_first() + rest));
        assert(seq![d[0]] + d.drop_first() =~= d);
    }
}

/// An unsigned decimal number starting at `i` (after optional whitespace).
fn p_u64(s: &Vec<char>, i: usize) -> (r: Option<(u64, usize)>)
    requires
        i <= s@.len(),
    ensures
        match r {
            Some((n, j)) => i <= j <= s@.len() && parse_u64(s@.skip(i as int)) == Some(
                (n, s@.skip(j as int)),
            ),
            None => parse_u64(s@.skip(i as int)) is None,
        },
{
    let j0 = ws_exec(s, i);
    let ghost t = s@.skip(j0 as int);
    let mut j = j0;
    let mut val: u64 = 0;
    let mut overflow = false;
    while j < s.len() && is_digit_exec(s[j])
        invariant
            i <= j0 <= j <= s@.len(),
            t == s@.skip(j0 as int),
            t == skip_ws(s@.skip(i as int)),
            forall|m: int| j0 <= m < j ==> is_digit(#[trigger] s@[m]),
            !overflow ==> val == val_of_digits(s@.subrange(j0 as int, j as int)),
            overflow ==> val_of_digits(s@.subrange(j0 as int, j as int)) > u64::MAX,
        decreases s@.len() - j,
    {
        let d = digit_val_exec(s[j]);
        proof {
            assert(s@.subrange(j0 as int, j + 1).drop_last() =~= s@.subrange(j0 as int, j as int));
            assert(s@.subrange(j0 as int, j + 1).last() == s@[j as int]);
        }
        if !overflow {
            match val.checked_mul(10) {
                Some(v10) => match v10.checked_add(d) {
                    Some(v) => {
                        val = v;
                    },
                    None => {
                        overflow = true;
                    },
                },
                None => {
                    overflow = true;
                },
            }
        }
        j = j + 1;
    }
    proof {
        assert(t =~= s@.subrange(j0 as int, j as int) + s@.skip(j as int));
        lemma_digits_prefix_concat(s@.subrange(j0 as int, j as int), s@.skip(j as int));
        assert(digits_prefix(t) == s@.subrange(j0 as int, j as int));
    }
    if overflow {
        return None;
    }
    if j == j0 {
        proof {
            assert(digits_prefix(t).len() == 0);
        }
        return None;
    }
    proof {
        assert(t.skip((j - j0) as int) =~= s@.skip(j as int));
    }
    Some((val, j))
}

/// A string value or `null`, starting at `i`.
fn p_opt_text(s: &Vec<char>, i: usize) -> (r: Option<(Option<String>, usize)>)
    requires
        i <= s@.len(),
    ensures
        match r {
            Some((v, j)) => i <= j <= s@.len() && parse_opt_text(s@.skip(i as int)) == Some(
                (v.deep_view(), s@.skip(j as int)),
            ),
            None => parse_opt_text(s@.skip(i as int)) is None,
        },
{
    let j0 = ws_exec(s, i);
    if j0 < s.len() && s[j0] == 'n' {
        let nul = tok_null_exec();
        match expect_chars(s, i, &nul) {
            Some(j) => Some((None, j)),
            None => None,
        }
    } else {
        match p_string(s, i) {
            Some((u, j)) => Some((Some(u), j)),
            None => None,
        }
    }
}

/// A number value or `null`, starting at `i`.
fn p_opt_num(s: &Vec<char>, i: usize) -> (r: Option<(Option<u64>, usize)>)
    requires
        i <= s@.len(),
    ensures
        match r {
            Some((v, j)) => i <= j <= s@.len() && parse_opt_num(s@.skip(i as int)) == Some(
                (v, s@.skip(j as int)),
            ),
            None => parse_opt_num(s@.skip(i as int)) is None,
        },
{
    let j0 = ws_exec(s, i);
    if j0 < s.len() && s[j0] == 'n' {
        let nul = tok_null_exec();
        match expect_chars(s, i, &nul) {
            Some(j) => Some((None, j)),
            None => None,
        }
    } else {
        match p_u64(s, i) {
            Some((n, j)) => Some((Some(n), j)),
            None => None,
        }
    }
}

/// One entry object starting at `i`.
#[verifier::rlimit(100)]
fn p_entry(s: &Vec<char>, i: usize) -> (r: Option<(PlaylistEntry, usize)>)
    requires
        i <= s@.len(),
    ensures
        match r {
            Some((e, j)) => i <= j <= s@.len() && parse_entry(s@.skip(i as int)) == Some(
                (e.deep_view(), s@.skip(j as int)),
            ),
            None => parse_entry(s@.skip(i as int)) is None,
        },
{
    proof {
        reveal(parse_entry);
    }
    let j1 = match expect_exec(s, i, '{') {
        Some(j) => j,
        None => {
            return None;
        },
    };
    let tok = tok_path_exec();
    let j2 = match expect_chars(s, j1, &tok) {
        Some(j) => j,
        None => {
            return None;
        },
    };
    let (path, j3) = match p_string(s, j2) {
        Some(x) => x,
        None => {
            return None;
        },
    };
    let j4 = match expect_exec(s, j3, ',') {
        Some(j) => j,
        None => {
            return None;
        },
    };
    let tok = tok_title_exec();
    let j5 = match expect_chars(s, j4, &tok) {
        Some(j) => j,
        None => {
            return None;
        },
    };
    let (title, j6) = match p_opt_text(s, j5) {
        Some(x) => x,
        None => {
            return None;
        },
    };
    let j7 = match expect_exec(s, j6, ',') {
        Some(j) => j,
        None => {
            return None;
        },
    };
    let tok = tok_artist_exec();
    let j8 = match expect_chars(s, j7, &tok) {
        Some(j) => j,
        None => {
            return None;
        },
    };
    let (artist, j9) = match p_opt_text(s, j8) {
        Some(x) => x,
        None => {
            return None;
        },
    };
    let j10 = match expect_exec(s, j9, ',') {
        Some(j) => j,
        None => {
            return None;
        },
    };
    let tok = tok_album_exec();
    let j11 = match expect_chars(s, j10, &tok) {
        Some(j) => j,
        None => {
            return None;
        },
    };
    let (album, j12) = match p_opt_text(s, j11) {
        Some(x) => x,
        None => {
            return None;
        },
    };
    let j13 = match expect_exec(s, j12, ',') {
        Some(j) => j,
        None => {
            return None;
        },
    };
    let tok = tok_duration_exec();
    let j14 = match expect_chars(s, j13, &tok) {
        Some(j) => j,
        None => {
            return None;
        },
    };
    let (duration, j15) = match p_opt_num(s, j14) {
        Some(x) => x,
        None => {
            return None;
        },
    };
    let j16 = match expect_exec(s, j15, '}') {
        Some(j) => j,
        None => {
            return None;
        },
    };
    let e = PlaylistEntry {
        path: path,
        title: title,
        artist: artist,
        album: album,
        duration: duration,
    };
    Some((e, j16))
}

/// The entries after the first one, starting at `i`.
fn p_tail(s: &Vec<char>, i: usize) -> (r: Option<(Vec<PlaylistEntry>, usize)>)
    requires
        i <= s@.len(),
    ensures
        match r {
            Some((es, j)) => i <= j <= s@.len() && parse_tail(s@.skip(i as int)) == Some(
                (es.deep_view(), s@.skip(j as int)),
            ),
            None => parse_tail(s@.skip(i as int)) is None,
        },
    decreases s@.len() - i,
{
    let j0 = ws_exec(s, i);
    if j0 >= s.len() {
        return None;
    }
    let c = s[j0];
    if c == ']' {
        proof {
            assert(s@.skip(j0 as int).drop_first() =~= s@.skip(j0 + 1));
        }
        let es: Vec<PlaylistEntry> = Vec::new();
        proof {
            assert(es.deep_view() =~= Seq::<EntryView>::empty());
        }
        return Some((es, j0 + 1));
    }
    if c != ',' {
        return None;
    }
    proof {
        assert(s@.skip(j0 as int).drop_first() =~= s@.skip(j0 + 1));
    }
    let (e, j1) = match p_entry(s, j0 + 1) {
        Some(x) => x,
        None => {
            return None;
        },
    };
    let (tail, j2) = match p_tail(s, j1) {
        Some(x) => x,
        None => {
            return None;
        },
    };
    let ghost dv_tail = tail.deep_view();
    let ghost vec_tail = tail@;
    let mut es = tail;
    es.insert(0, e);
    proof {
        assert forall|k: int| 0 <= k < es@.len() implies #[trigger] es.deep_view()[k] == (seq![
            e.deep_view(),
        ] + dv_tail)[k] by {
            if k == 0 {
                assert(es@[0] == e);
            } else {
                assert(es@[k] == vec_tail[k - 1]);
            }
        }
        assert(es.deep_view() =~= seq![e.deep_view()] + dv_tail);
    }
    Some((es, j2))
}

/// The whole document starting at the front of `text`; returns the parsed
/// entries, or none when the text is not a playlist document.
pub(crate) fn parse_entries_exec(text: &str) -> (r: Option<Vec<PlaylistEntry>>)
    ensures
        match r {
            Some(es) => parse_entries(text@) == Some(es.deep_view()),
            None => parse_entries(text@) is None,
        },
{
    let s = chars_of(text);
    proof {
        assert(s@.skip(0) =~= s@);
    }
    let j1 = match expect_exec(&s, 0, '[') {
        Some(j) => j,
        None => {
            return None;
        },
    };
    let j2 = ws_exec(&s, j1);
    if j2 < s.len() && s[j2] == ']' {
        proof {
            assert(s@.skip(j2 as int).drop_first() =~= s@.skip(j2 + 1));
        }
        let j3 = ws_exec(&s, j2 + 1);
        if j3 == s.len() {
            let es: Vec<PlaylistEntry> = Vec::new();
            proof {
                assert(es.deep_view() =~= Seq::<EntryView>::empty());
            }
            return Some(es);
        } else {
            return None;
        }
    }
    let (e, j4) = match p_entry(&s, j1) {
        Some(x) => x,
        None => {
            return None;
        },
    };
    let (tail, j5) = match p_tail(&s, j4) {
        Some(x) => x,
        None => {
            return None;
        },
    };
    let j6 = ws_exec(&s, j5);
    if j6 != s.len() {
        return None;
    }
    let ghost dv_tail = tail.deep_view();
    let ghost vec_tail = tail@;
    let mut es = tail;
    es.insert(0, e);
    proof {
        assert forall|k: int| 0 <= k < es@.len() implies #[trigger] es.deep_view()[k] == (seq![
            e.deep_view(),
        ] + dv_tail)[k] by {
            if k == 0 {
                assert(es@[0] == e);
            } else {
                assert(es@[k] == vec_tail[k - 1]);
            }
        }
        assert(es.deep_view() =~= seq![e.deep_view()] + dv_tail);
    }
    Some(es)
}

/// The whole entry sequence rendered as a JSON document.
pub(crate) fn render_entries(entries: &Vec<PlaylistEntry>) -> (r: String)
    ensures
        r@ == ser_entries(entries.deep_view()),
{
    let ghost dv = entries.deep_view();
    let mut out: Vec<char> = Vec::new();
    out.push('[');
    if entries.len() > 0 {
        push_entry(&mut out, &entries[0]);
        proof {
            assert(out@ =~= seq!['['] + ser_entry(dv[0]) + ser_tail(dv.subrange(1, 1)));
        }
        let mut i: usize = 1;
        while i < entries.len()
            invariant
                1 <= i <= entries@.len(),
                dv == entries.deep_view(),
                out@ == seq!['['] + ser_entry(dv[0]) + ser_tail(dv.subrange(1, i as int)),
            decreases entries@.len() - i,
        {
            out.push(',');
            push_entry(&mut out, &entries[i]);
            proof {
                lemma_ser_tail_snoc(dv.subrange(1, i as int), dv[i as int]);
                assert(dv.subrange(1, i + 1) =~= dv.subrange(1, i as int).push(dv[i as int]));
                assert(out@ =~= seq!['['] + ser_entry(dv[0]) + ser_tail(dv.subrange(1, i + 1)));
            }
            i = i + 1;
        }
        out.push(']');
        proof {
            assert(dv.subrange(1, dv.len() as int) =~= dv.drop_first());
            assert(out@ =~= ser_entries(dv));
        }
    } else {
        out.push(']');
        proof {
            assert(out@ =~= ser_entries(dv));
        }
    }
    string_from_chars(&out)
}

} // verus!
