//! Serialization of the submission bodies.
//!
//! The bodies sent to the central service are JSON objects with a fixed field
//! order. Building them here, against an exact character-level specification,
//! makes the serialized form a function of the body's contents alone: equal
//! bodies serialize to equal bytes.

use vstd::prelude::*;
use crate::models::{ScanResult, SubmitJobResultsError, SubmitJobResultsSuccess};
use crate::strutil::{append_str, push_char, string_views};

verus! {

/// One decimal digit as a character.
pub open spec fn spec_digit(d: int) -> char {
    if d == 0 {
        '0'
    } else if d == 1 {
        '1'
    } else if d == 2 {
        '2'
    } else if d == 3 {
        '3'
    } else if d == 4 {
        '4'
    } else if d == 5 {
        '5'
    } else if d == 6 {
        '6'
    } else if d == 7 {
        '7'
    } else if d == 8 {
        '8'
    } else {
        '9'
    }
}

/// One hexadecimal digit as a lower-case character.
pub open spec fn spec_hex_digit(d: int) -> char {
    if d < 10 {
        spec_digit(d)
    } else if d == 10 {
        'a'
    } else if d == 11 {
        'b'
    } else if d == 12 {
        'c'
    } else if d == 13 {
        'd'
    } else if d == 14 {
        'e'
    } else {
        'f'
    }
}

/// The decimal digits of a nonnegative integer, most significant first.
pub open spec fn dec_digits(n: int) -> Seq<char>
    recommends
        n >= 0,
    decreases n,
{
    if n < 10 {
        seq![spec_digit(n)]
    } else {
        dec_digits(n / 10) + seq![spec_digit(n % 10)]
    }
}

/// The decimal form of an `i64` value, with a leading minus when negative.
pub open spec fn dec_i64(n: int) -> Seq<char> {
    if n < 0 {
        seq!['-'] + dec_digits(-n)
    } else {
        dec_digits(n)
    }
}

/// The escape of one character inside a JSON string.
pub open spec fn json_escape_char(c: char) -> Seq<char> {
    if c == '"' {
        seq!['\\', '"']
    } else if c == '\\' {
        seq!['\\', '\\']
    } else if c == '\u{8}' {
        seq!['\\', 'b']
    } else if c == '\u{c}' {
        seq!['\\', 'f']
    } else if c == '\n' {
        seq!['\\', 'n']
    } else if c == '\r' {
        seq!['\\', 'r']
    } else if c == '\t' {
        seq!['\\', 't']
    } else if (c as u32) < 32 {
        seq!['\\', 'u', '0', '0', spec_hex_digit((c as u32) as int / 16), spec_hex_digit(
            (c as u32) as int % 16,
        )]
    } else {
        seq![c]
    }
}

/// A character sequence with every character escaped.
pub open spec fn json_escape_seq(s: Seq<char>) -> Seq<char>
    decreases s.len(),
{
    if s.len() == 0 {
        Seq::empty()
    } else {
        json_escape_seq(s.drop_last()) + json_escape_char(s.last())
    }
}

/// A JSON string literal: quotes around the escaped contents.
pub open spec fn json_string(s: Seq<char>) -> Seq<char> {
    seq!['"'] + json_escape_seq(s) + seq!['"']
}

/// JSON string literals joined by commas.
pub open spec fn join_json_strings(xs: Seq<Seq<char>>) -> Seq<char>
    decreases xs.len(),
{
    if xs.len() == 0 {
        Seq::empty()
    } else if xs.len() == 1 {
        json_string(xs[0])
    } else {
        join_json_strings(xs.drop_last()) + seq![','] + json_string(xs.last())
    }
}

/// A JSON array of string literals.
pub open spec fn json_str_array(xs: Seq<Seq<char>>) -> Seq<char> {
    seq!['['] + join_json_strings(xs) + seq![']']
}

/// The JSON value of an optional string: a string literal or `null`.
pub open spec fn json_opt_string(s: Option<Seq<char>>) -> Seq<char> {
    match s {
        Option::Some(v) => json_string(v),
        Option::None => "null"@,
    }
}

/// The serialized success body, field by field, in declaration order.
pub open spec fn spec_success_json(b: SubmitJobResultsSuccess) -> Seq<char> {
    "{\"name\":"@ + json_string(b.name@) + ",\"version\":"@ + json_string(b.version@)
        + ",\"score\":"@ + dec_i64(b.score as int) + ",\"inspector_url\":"@ + json_opt_string(
        match b.inspector_url {
            Option::Some(u) => Option::Some(u@),
            Option::None => Option::None,
        },
    ) + ",\"rules_matched\":"@ + json_str_array(string_views(b.rules_matched@)) + ",\"commit\":"@
        + json_string(b.commit@) + "}"@
}

/// The serialized failure body.
pub open spec fn spec_error_json(e: SubmitJobResultsError) -> Seq<char> {
    "{\"name\":"@ + json_string(e.name@) + ",\"version\":"@ + json_string(e.version@)
        + ",\"reason\":"@ + json_string(e.reason@) + "}"@
}

/// Append one decimal digit.
fn push_digit(s: &mut String, d: u64)
    requires
        d < 10,
    ensures
        final(s)@ == old(s)@ + seq![spec_digit(d as int)],
{
    let c: char = if d == 0 {
        '0'
    } else if d == 1 {
        '1'
    } else if d == 2 {
        '2'
    } else if d == 3 {
        '3'
    } else if d == 4 {
        '4'
    } else if d == 5 {
        '5'
    } else if d == 6 {
        '6'
    } else if d == 7 {
        '7'
    } else if d == 8 {
        '8'
    } else {
        '9'
    };
    push_char(s, c);
    proof {
        assert(old(s)@.push(c) =~= old(s)@ + seq![spec_digit(d as int)]);
    }
}

/// Append one lower-case hexadecimal digit.
fn push_hex_digit(s: &mut String, d: u32)
    requires
        d < 16,
    ensures
        final(s)@ == old(s)@ + seq![spec_hex_digit(d as int)],
{
    if d < 10 {
        push_digit(s, d as u64);
    } else {
        let c: char = if d == 10 {
            'a'
        } else if d == 11 {
            'b'
        } else if d == 12 {
            'c'
        } else if d == 13 {
            'd'
        } else if d == 14 {
            'e'
        } else {
            'f'
        };
        push_char(s, c);
        proof {
            assert(old(s)@.push(c) =~= old(s)@ + seq![spec_hex_digit(d as int)]);
        }
    }
}

/// Append the decimal digits of `n`.
fn append_dec_u64(s: &mut String, n: u64)
    ensures
        final(s)@ == old(s)@ + dec_digits(n as int),
    decreases n,
{
    if n >= 10 {
        append_dec_u64(s, n / 10);
        push_digit(s, n % 10);
        proof {
            assert(old(s)@ + dec_digits(n as int / 10) + seq![spec_digit(n as int % 10)] =~= old(
                s,
            )@ + dec_digits(n as int));
        }
    } else {
        push_digit(s, n);
    }
}

/// Append the decimal form of an `i64`, minus sign included.
pub fn append_dec_i64(s: &mut String, n: i64)
    ensures
        final(s)@ == old(s)@ + dec_i64(n as int),
{
    if n < 0 {
        push_char(s, '-');
        let magnitude: u64 = ((-(n + 1)) as u64) + 1;
        proof {
            assert(magnitude as int == -(n as int));
            assert(old(s)@.push('-') =~= old(s)@ + seq!['-']);
        }
        append_dec_u64(s, magnitude);
        proof {
            assert(old(s)@ + seq!['-'] + dec_digits(magnitude as int) =~= old(s)@ + dec_i64(
                n as int,
            ));
        }
    } else {
        append_dec_u64(s, n as u64);
    }
}

/// Append one character of a JSON string, escaped as needed.
fn push_escaped_char(s: &mut String, c: char)
    ensures
        final(s)@ == old(s)@ + json_escape_char(c),
{
    let code: u32 = c as u32;
    if c == '"' {
        append_str(s, "\\\"");
        proof {
            reveal_strlit("\\\"");
            assert("\\\""@ =~= json_escape_char(c));
        }
    } else if c == '\\' {
        append_str(s, "\\\\");
        proof {
            reveal_strlit("\\\\");
            assert("\\\\"@ =~= json_escape_char(c));
        }
    } else if code == 8 {
        append_str(s, "\\b");
        proof {
            reveal_strlit("\\b");
            assert("\\b"@ =~= json_escape_char(c));
        }
    } else if code == 12 {
        append_str(s, "\\f");
        proof {
            reveal_strlit("\\f");
            assert("\\f"@ =~= json_escape_char(c));
        }
    } else if c == '\n' {
        append_str(s, "\\n");
        proof {
            reveal_strlit("\\n");
            assert("\\n"@ =~= json_escape_char(c));
        }
    } else if c == '\r' {
        append_str(s, "\\r");
        proof {
            reveal_strlit("\\r");
            assert("\\r"@ =~= json_escape_char(c));
        }
    } else if c == '\t' {
        append_str(s, "\\t");
        proof {
            reveal_strlit("\\t");
            assert("\\t"@ =~= json_escape_char(c));
        }
    } else if code < 32 {
        append_str(s, "\\u00");
        push_hex_digit(s, code / 16);
        push_hex_digit(s, code % 16);
        proof {
            reveal_strlit("\\u00");
            assert(old(s)@ + "\\u00"@ + seq![spec_hex_digit(code as int / 16)] + seq![
                spec_hex_digit(code as int % 16),
            ] =~= old(s)@ + json_escape_char(c));
        }
    } else {
        push_char(s, c);
        proof {
            assert(old(s)@.push(c) =~= old(s)@ + json_escape_char(c));
        }
    }
}

/// Append a JSON string literal holding `v`.
pub fn append_json_string(s: &mut String, v: &str)
    ensures
        final(s)@ == old(s)@ + json_string(v@),
{
    push_char(s, '"');
    let n: usize = v.unicode_len();
    let mut i: usize = 0;
    proof {
        assert(json_escape_seq(v@.take(0)) =~= Seq::<char>::empty());
        assert(old(s)@.push('"') =~= old(s)@ + seq!['"'] + json_escape_seq(v@.take(0)));
    }
    while i < n
        invariant
            0 <= i <= n,
            n == v@.len(),
            s@ == old(s)@ + seq!['"'] + json_escape_seq(v@.take(i as int)),
        decreases n - i,
    {
        let c = v.get_char(i);
        push_escaped_char(s, c);
        proof {
            assert(v@.take(i + 1).drop_last() =~= v@.take(i as int));
            assert(v@.take(i + 1).last() == v@[i as int]);
            assert(old(s)@ + seq!['"'] + json_escape_seq(v@.take(i as int)) + json_escape_char(
                v@[i as int],
            ) =~= old(s)@ + seq!['"'] + json_escape_seq(v@.take(i + 1)));
        }
        i = i + 1;
    }
    push_char(s, '"');
    proof {
        assert(v@.take(n as int) =~= v@);
        assert((old(s)@ + seq!['"'] + json_escape_seq(v@)).push('"') =~= old(s)@ + json_string(
            v@,
        ));
    }
}

/// Append a JSON array of string literals.
pub fn append_json_str_array(s: &mut String, xs: &Vec<String>)
    ensures
        final(s)@ == old(s)@ + json_str_array(string_views(xs@)),
{
    push_char(s, '[');
    let ghost views = string_views(xs@);
    proof {
        assert(old(s)@.push('[') =~= old(s)@ + seq!['['] + join_json_strings(views.take(0)));
        assert(join_json_strings(views.take(0)) =~= Seq::<char>::empty());
    }
    let mut i: usize = 0;
    while i < xs.len()
        invariant
            0 <= i <= xs@.len(),
            views == string_views(xs@),
            views.len() == xs@.len(),
            s@ == old(s)@ + seq!['['] + join_json_strings(views.take(i as int)),
        decreases xs@.len() - i,
    {
        if i > 0 {
            push_char(s, ',');
        }
        append_json_string(s, xs[i].as_str());
        proof {
            assert(views.take(i + 1).drop_last() =~= views.take(i as int));
            assert(views.take(i + 1).last() == views[i as int]);
            if i == 0 {
                assert(join_json_strings(views.take(1)) =~= json_string(views[0]));
                assert(old(s)@ + seq!['['] + join_json_strings(views.take(0)) + json_string(
                    views[0],
                ) =~= old(s)@ + seq!['['] + join_json_strings(views.take(1)));
            } else {
                assert(join_json_strings(views.take(i + 1)) =~= join_json_strings(
                    views.take(i as int),
                ) + seq![','] + json_string(views[i as int]));
                assert(old(s)@ + seq!['['] + join_json_strings(views.take(i as int)) + seq![',']
                    + json_string(views[i as int]) =~= old(s)@ + seq!['['] + join_json_strings(
                    views.take(i + 1),
                ));
            }
        }
        i = i + 1;
    }
    push_char(s, ']');
    proof {
        assert(views.take(views.len() as int) =~= views);
        assert((old(s)@ + seq!['['] + join_json_strings(views)).push(']') =~= old(s)@
            + json_str_array(views));
    }
}

/// Serialize a success body.
pub fn success_to_json(b: &SubmitJobResultsSuccess) -> (r: String)
    ensures
        r@ == spec_success_json(*b),
{
    let mut s = String::new();
    append_str(&mut s, "{\"name\":");
    append_json_string(&mut s, b.name.as_str());
    append_str(&mut s, ",\"version\":");
    append_json_string(&mut s, b.version.as_str());
    append_str(&mut s, ",\"score\":");
    append_dec_i64(&mut s, b.score);
    append_str(&mut s, ",\"inspector_url\":");
    match &b.inspector_url {
        Some(u) => {
            append_json_string(&mut s, u.as_str());
        },
        None => {
            append_str(&mut s, "null");
        },
    }
    append_str(&mut s, ",\"rules_matched\":");
    append_json_str_array(&mut s, &b.rules_matched);
    append_str(&mut s, ",\"commit\":");
    append_json_string(&mut s, b.commit.as_str());
    append_str(&mut s, "}");
    proof {
        assert(s@ =~= spec_success_json(*b));
    }
    s
}

/// Serialize a failure body.
pub fn error_to_json(e: &SubmitJobResultsError) -> (r: String)
    ensures
        r@ == spec_error_json(*e),
{
    let mut s = String::new();
    append_str(&mut s, "{\"name\":");
    append_json_string(&mut s, e.name.as_str());
    append_str(&mut s, ",\"version\":");
    append_json_string(&mut s, e.version.as_str());
    append_str(&mut s, ",\"reason\":");
    append_json_string(&mut s, e.reason.as_str());
    append_str(&mut s, "}");
    proof {
        assert(s@ =~= spec_error_json(*e));
    }
    s
}

/// Serialize a job result: the success body or the failure body. The server
/// tells the two apart by their fields.
pub fn scan_result_json(r: &ScanResult) -> (s: String)
    ensures
        match r {
            Ok(b) => s@ == spec_success_json(*b),
            Err(e) => s@ == spec_error_json(*e),
        },
{
    match r {
        Ok(b) => success_to_json(b),
        Err(e) => error_to_json(e),
    }
}

/// Strings joined by a comma and a space.
pub open spec fn join_comma(xs: Seq<Seq<char>>) -> Seq<char>
    decreases xs.len(),
{
    if xs.len() == 0 {
        Seq::empty()
    } else if xs.len() == 1 {
        xs[0]
    } else {
        join_comma(xs.drop_last()) + ", "@ + xs.last()
    }
}

/// Append the strings joined by a comma and a space.
pub fn append_joined_comma(s: &mut String, xs: &Vec<String>)
    ensures
        final(s)@ == old(s)@ + join_comma(string_views(xs@)),
{
    let ghost views = string_views(xs@);
    proof {
        assert(join_comma(views.take(0)) =~= Seq::<char>::empty());
        assert(old(s)@ + join_comma(views.take(0)) =~= old(s)@);
    }
    let mut i: usize = 0;
    while i < xs.len()
        invariant
            0 <= i <= xs@.len(),
            views == string_views(xs@),
            views.len() == xs@.len(),
            s@ == old(s)@ + join_comma(views.take(i as int)),
        decreases xs@.len() - i,
    {
        if i > 0 {
            append_str(s, ", ");
        }
        append_str(s, xs[i].as_str());
        proof {
            assert(views.take(i + 1).drop_last() =~= views.take(i as int));
            assert(views.take(i + 1).last() == views[i as int]);
            if i == 0 {
                assert(join_comma(views.take(1)) =~= views[0]);
                assert(s@ =~= old(s)@ + join_comma(views.take(1)));
            } else {
                assert(join_comma(views.take(i + 1)) =~= join_comma(views.take(i as int)) + ", "@
                    + views[i as int]);
                assert(s@ =~= old(s)@ + join_comma(views.take(i + 1)));
            }
        }
        i = i + 1;
    }
    proof {
        assert(views.take(views.len() as int) =~= views);
    }
}

/// The human-readable form of a success body, one field per line.
pub open spec fn spec_success_display(b: SubmitJobResultsSuccess) -> Seq<char> {
    "Name: "@ + b.name@ + "\n"@ + "Version: "@ + b.version@ + "\n"@ + "Score: "@ + dec_i64(
        b.score as int,
    ) + "\n"@ + "Inspector URL: "@ + (match b.inspector_url {
        Option::Some(u) => u@,
        Option::None => "None"@,
    }) + "\n"@ + "Rules matched: "@ + join_comma(string_views(b.rules_matched@)) + "\n"@
        + "Commit hash: "@ + b.commit@ + "\n"@
}

/// The human-readable form of a failure body, one field per line.
pub open spec fn spec_error_display(e: SubmitJobResultsError) -> Seq<char> {
    "Name: "@ + e.name@ + "\n"@ + "Version: "@ + e.version@ + "\n"@ + "Reason: "@ + e.reason@
        + "\n"@
}

impl SubmitJobResultsSuccess {
    /// The body as text, one field per line.
    pub fn display_string(&self) -> (r: String)
        ensures
            r@ == spec_success_display(*self),
    {
        let mut s = String::new();
        append_str(&mut s, "Name: ");
        append_str(&mut s, self.name.as_str());
        append_str(&mut s, "\n");
        append_str(&mut s, "Version: ");
        append_str(&mut s, self.version.as_str());
        append_str(&mut s, "\n");
        append_str(&mut s, "Score: ");
        append_dec_i64(&mut s, self.score);
        append_str(&mut s, "\n");
        append_str(&mut s, "Inspector URL: ");
        match &self.inspector_url {
            Some(u) => {
                append_str(&mut s, u.as_str());
            },
            None => {
                append_str(&mut s, "None");
            },
        }
        append_str(&mut s, "\n");
        append_str(&mut s, "Rules matched: ");
        append_joined_comma(&mut s, &self.rules_matched);
        append_str(&mut s, "\n");
        append_str(&mut s, "Commit hash: ");
        append_str(&mut s, self.commit.as_str());
        append_str(&mut s, "\n");
        proof {
            assert(s@ =~= spec_success_display(*self));
        }
        s
    }
}

impl SubmitJobResultsError {
    /// The body as text, one field per line.
    pub fn display_string(&self) -> (r: String)
        ensures
            r@ == spec_error_display(*self),
    {
        let mut s = String::new();
        append_str(&mut s, "Name: ");
        append_str(&mut s, self.name.as_str());
        append_str(&mut s, "\n");
        append_str(&mut s, "Version: ");
        append_str(&mut s, self.version.as_str());
        append_str(&mut s, "\n");
        append_str(&mut s, "Reason: ");
        append_str(&mut s, self.reason.as_str());
        append_str(&mut s, "\n");
        proof {
            assert(s@ =~= spec_error_display(*self));
        }
        s
    }
}

/// Serialization is deterministic: bodies with equal contents serialize to
/// equal character sequences, whatever process or machine builds them.
pub proof fn lemma_success_json_deterministic(a: SubmitJobResultsSuccess, b: SubmitJobResultsSuccess)
    requires
        a.name@ == b.name@,
        a.version@ == b.version@,
        a.score == b.score,
        match (a.inspector_url, b.inspector_url) {
            (Option::Some(x), Option::Some(y)) => x@ == y@,
            (Option::None, Option::None) => true,
            _ => false,
        },
        string_views(a.rules_matched@) == string_views(b.rules_matched@),
        a.commit@ == b.commit@,
    ensures
        spec_success_json(a) == spec_success_json(b),
{
}

} // verus!
