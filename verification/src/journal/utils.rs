//! Recognizing and taking apart journal lines.

use vstd::prelude::*;
use crate::date::{Date, chrono_parse_date};
use crate::error::RsledgerError;
use crate::text::{
    before_first, before_first_chars, chars_before_byte, chars_of, has_prefix, is_boundary,
    is_digit, skip_bytes, starts_with, string_from, subvec, take_bytes, trim, trim_chars,
};

verus! {

/// The kinds of directive a journal line can start.
#[derive(Debug, Clone, Copy, PartialEq, Eq, Hash, Structural)]
pub enum DirectiveType {
    /// `include <path>`
    Include,
    /// A transaction header, `YYYY-MM-DD <description>`.
    Transaction,
    /// A price directive, `P ...`.
    Price,
    /// Anything else.
    Other,
}

/// A line without its comment (from the first `;`), trimmed.
pub open spec fn trim_comments_spec(line: Seq<char>) -> Seq<char> {
    trim(before_first(line, ';'))
}

/// Ten characters shaped `DDDD-DD-DD` with ASCII digits.
pub open spec fn date_shaped(d: Seq<char>) -> bool {
    &&& d.len() >= 10
    &&& forall|i: int| 0 <= i < 10 ==> if i == 4 || i == 7 { d[i] == '-' } else { is_digit(#[trigger] d[i]) }
}

pub open spec fn directive_of(line: Seq<char>) -> DirectiveType {
    let t = trim_comments_spec(line);
    if starts_with(t, "include"@) {
        DirectiveType::Include
    } else if t.len() > 0 && t[0] == 'P' {
        DirectiveType::Price
    } else if date_shaped(t) {
        DirectiveType::Transaction
    } else {
        DirectiveType::Other
    }
}

/// A line's comment starts at its first `;`: when `i` is the position of
/// the first `;`, the comment-free line is the text before `i`, trimmed; a
/// line without `;` is only trimmed.
pub proof fn law_trim_comments_cuts_at_first_semicolon(line: Seq<char>, i: int)
    ensures
        (0 <= i < line.len() && line[i] == ';' && forall|k: int| 0 <= k < i ==> line[k] != ';')
            ==> trim_comments_spec(line) == trim(line.take(i)),
        !line.contains(';') ==> trim_comments_spec(line) == trim(line),
{
    if 0 <= i < line.len() && line[i] == ';' && forall|k: int| 0 <= k < i ==> line[k] != ';' {
        let a = line.take(i);
        assert(!a.contains(';')) by {
            if a.contains(';') {
                let k = choose|k: int| 0 <= k < a.len() && a[k] == ';';
                assert(line[k] == ';');
            }
        }
        crate::text::lemma_split_on_concat(a, line.skip(i + 1), ';');
        assert(a.push(';') + line.skip(i + 1) =~= line);
    }
    if !line.contains(';') {
        crate::text::lemma_split_on_free(line, ';');
    }
}

/// Removes the comment (from the first `;` to the end) and surrounding whitespace.
pub fn trim_comments(line: &str) -> (r: String)
    ensures
        r@ == trim_comments_spec(line@),
{
    let cs = chars_of(line);
    let before = before_first_chars(&cs, ';');
    string_from(&trim_chars(&before))
}

/// What kind of directive a line holds, judged after removing its comment:
/// `include` first, then a leading `P`, then a `YYYY-MM-DD` date shape.
pub fn identify_directive_type(line: &str) -> (r: DirectiveType)
    ensures
        r == directive_of(line@),
{
    let t = chars_of(trim_comments(line).as_str());
    let keyword = chars_of("include");
    if has_prefix(&t, &keyword) {
        return DirectiveType::Include;
    }
    if t.len() > 0 && t[0] == 'P' {
        return DirectiveType::Price;
    }
    if t.len() < 10 {
        return DirectiveType::Other;
    }
    let mut i: usize = 0;
    while i < 10
        invariant
            i <= 10 <= t@.len(),
            t@ == trim_comments_spec(line@),
            !starts_with(t@, "include"@),
            t@[0] != 'P',
            forall|k: int| 0 <= k < i ==> if k == 4 || k == 7 { t@[k] == '-' } else { is_digit(#[trigger] t@[k]) },
        decreases 10 - i,
    {
        if i == 4 || i == 7 {
            if t[i] != '-' {
                return DirectiveType::Other;
            }
        } else {
            let u = t[i] as u32;
            if u < 48 || u > 57 {
                assert(!is_digit(t@[i as int]));
                return DirectiveType::Other;
            }
        }
        i = i + 1;
    }
    DirectiveType::Transaction
}

/// The path of an `include` line: the text after the first seven bytes of the
/// comment-free line, trimmed, without one pair of surrounding double quotes.
pub open spec fn include_path(line: Seq<char>) -> Seq<char> {
    let t = trim_comments_spec(line);
    let p = trim(t.skip(chars_before_byte(t, 7)));
    if p.len() > 0 && p[0] == '"' && p.last() == '"' {
        p.subrange(1, p.len() - 1)
    } else {
        p
    }
}

/// Inputs on which `parse_include` does not panic: seven bytes can be cut off
/// the comment-free line, and what remains is not a lone double quote.
pub open spec fn include_parsable(line: Seq<char>) -> bool {
    let t = trim_comments_spec(line);
    is_boundary(t, 7) && trim(t.skip(chars_before_byte(t, 7))) != seq!['"']
}

/// The path named by an include directive, e.g. `include "other.journal"`.
pub fn parse_include(line: &str) -> (r: Result<String, RsledgerError>)
    requires
        include_parsable(line@),
    ensures
        r matches Ok(p) && p@ == include_path(line@),
{
    let t = chars_of(trim_comments(line).as_str());
    let rest = match skip_bytes(&t, 7) {
        Some(v) => v,
        None => {
            assert(false);
            Vec::new()
        },
    };
    let p = trim_chars(&rest);
    if p.len() > 0 && p[0] == '"' && p[p.len() - 1] == '"' {
        assert(p@.len() >= 2) by {
            if p@.len() == 1 {
                assert(p@ =~= seq!['"']);
            }
        }
        Ok(string_from(&subvec(&p, 1, p.len() - 1)))
    } else {
        Ok(string_from(&p))
    }
}

/// The first ten bytes (the date) and the trimmed rest (the description) of the
/// comment-free line.
pub open spec fn header_parts(line: Seq<char>) -> (Seq<char>, Seq<char>) {
    let t = trim_comments_spec(line);
    let k = chars_before_byte(t, 10);
    (t.take(k), trim(t.skip(k)))
}

/// Inputs on which `parse_transaction_header` does not panic.
pub open spec fn header_parsable(line: Seq<char>) -> bool {
    is_boundary(trim_comments_spec(line), 10)
}

/// Splits a transaction header into its date (`YYYY-MM-DD`, parsed by
/// `chrono`) and its description.
pub fn parse_transaction_header(line: &str) -> (r: Result<(Date, String), RsledgerError>)
    requires
        header_parsable(line@),
    ensures
        match chrono_parse_date(header_parts(line@).0, "%Y-%m-%d"@) {
            Ok(t) => r matches Ok(v) && v.0@ == (t.0 as int, t.1 as int, t.2 as int)
                && v.1@ == header_parts(line@).1,
            Err(m) => r matches Err(e) && e matches RsledgerError::ParseError(item, why)
                && item@ == line@ && why@ == "Failed to parse transaction date: "@ + m,
        },
{
    let t = chars_of(trim_comments(line).as_str());
    let (date_chars, rest) = match (take_bytes(&t, 10), skip_bytes(&t, 10)) {
        (Some(a), Some(b)) => (a, b),
        _ => {
            assert(false);
            (Vec::new(), Vec::new())
        },
    };
    let description = string_from(&trim_chars(&rest));
    let date_str = string_from(&date_chars);
    match Date::parse_from_str(date_str.as_str(), "%Y-%m-%d") {
        Ok(d) => Ok((d, description)),
        Err(m) => {
            let mut why = "Failed to parse transaction date: ".to_owned();
            why.append(m.as_str());
            Err(RsledgerError::ParseError(line.to_owned(), why))
        },
    }
}

} // verus!
