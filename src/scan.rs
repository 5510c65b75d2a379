//! The escape-aware scanner: replaces the mode expressions of a literal's text.

use vstd::prelude::*;
use crate::buffer::{ColorString, flushed};
use crate::error::{ColorError, ColorFault};
use crate::mode::{Painted, apply_tokens, painted, parse, reset, resolve};

verus! {

/// The scan from index `i` of `b` on, from state `st`.
///
/// `open` is the index of the `[` of the mode expression being read, if any.
/// Outside a mode expression, `[[` and `]]` stand for one literal bracket, a
/// single `[` opens a mode expression, and every other character is copied.
/// Inside one, `]` closes it and hands its content to [`resolve`]; a `[` is an
/// error, and so is reaching the end.
pub open spec fn markup(b: Seq<char>, i: int, st: Painted, open: Option<int>) -> Result<
    Painted,
    ColorFault,
>
    decreases b.len() - i,
{
    if i < 0 || i >= b.len() {
        match open {
            Some(o) => Err(ColorFault::UnmatchedBracket(o as nat)),
            None => Ok(st),
        }
    } else {
        match open {
            None => {
                if b[i] == '[' && i + 1 < b.len() && b[i + 1] == '[' {
                    markup(b, i + 2, (st.0.push('['), st.1), None)
                } else if b[i] == '[' {
                    markup(b, i + 1, st, Some(i))
                } else if b[i] == ']' && i + 1 < b.len() && b[i + 1] == ']' {
                    markup(b, i + 2, (st.0.push(']'), st.1), None)
                } else {
                    markup(b, i + 1, (st.0.push(b[i]), st.1), None)
                }
            },
            Some(o) => {
                if b[i] == '[' {
                    Err(ColorFault::NestedBracket(i as nat))
                } else if b[i] == ']' {
                    match resolve(st, b.subrange(o + 1, i)) {
                        Ok(s) => markup(b, i + 1, s, None),
                        Err(f) => Err(f),
                    }
                } else {
                    markup(b, i + 1, st, Some(o))
                }
            },
        }
    }
}

/// The colored text of the literal text `b`, ending with a full reset.
pub open spec fn rendered(b: Seq<char>) -> Result<Seq<char>, ColorFault> {
    match markup(b, 0, (Seq::empty(), Seq::empty()), None) {
        Ok(st) => Ok(flushed(st.0, st.1) + reset()),
        Err(f) => Err(f),
    }
}

/// The characters of `s`.
fn chars_of(s: &str) -> (v: Vec<char>)
    ensures
        v@ == s@,
{
    let n = s.unicode_len();
    let mut v: Vec<char> = Vec::with_capacity(n);
    let mut i: usize = 0;
    while i < n
        invariant
            n == s@.len(),
            i <= n,
            v@ == s@.subrange(0, i as int),
        decreases n - i,
    {
        v.push(s.get_char(i));
        i += 1;
    }
    assert(v@ =~= s@);
    v
}

/// Replaces the mode expressions of the literal text `body` by escape sequences.
///
/// Each `[...]` becomes the sequences of its tokens, `[[` and `]]` become one
/// literal bracket, and a full reset `ESC[0m` is appended. Error indices count
/// characters of `body`.
pub fn render(body: &str) -> (r: Result<String, ColorError>)
    ensures
        match rendered(body@) {
            Ok(t) => r is Ok && r->Ok_0@ == t,
            Err(f) => r is Err && r->Err_0@ == f,
        },
{
    let b = chars_of(body);
    let n = b.len();
    let mut buffer = ColorString::new(n);
    let mut open: Option<usize> = None;
    let mut expr = String::new();
    let mut i: usize = 0;
    let ghost whole = markup(b@, 0, painted(buffer), None);
    let ghost outcome: Result<Seq<char>, ColorFault> = match whole {
        Ok(st) => Ok(flushed(st.0, st.1) + reset()),
        Err(f) => Err(f),
    };
    assert(rendered(body@) == outcome);
    while i < n
        invariant
            rendered(body@) == outcome,
            outcome == match whole {
                Ok(st) => Ok(flushed(st.0, st.1) + reset()),
                Err(f) => Err(f),
            },
            n == b@.len(),
            b@ == body@,
            i <= n + 1,
            whole == markup(
                b@,
                i as int,
                painted(buffer),
                match open {
                    Some(o) => Some(o as int),
                    None => None,
                },
            ),
            open matches Some(o) ==> o < i && expr@ == b@.subrange(o + 1, i as int),
        decreases n + 1 - i,
    {
        let c = b[i];
        match open {
            None => {
                if c == '[' && i + 1 < n && b[i + 1] == '[' {
                    buffer.push('[');
                    i += 2;
                } else if c == '[' {
                    open = Some(i);
                    expr = String::new();
                    i += 1;
                    assert(expr@ =~= b@.subrange(i as int, i as int));
                } else if c == ']' && i + 1 < n && b[i + 1] == ']' {
                    buffer.push(']');
                    i += 2;
                } else {
                    buffer.push(c);
                    i += 1;
                }
            },
            Some(o) => {
                if c == '[' {
                    return Err(ColorError::NestedBracket(i));
                } else if c == ']' {
                    match parse(expr.as_str(), &mut buffer) {
                        Ok(()) => {},
                        Err(e) => {
                            return Err(e);
                        },
                    }
                    open = None;
                    i += 1;
                } else {
                    expr.push(c);
                    i += 1;
                    assert(expr@ =~= b@.subrange(o + 1, i as int));
                }
            },
        }
    }
    if let Some(o) = open {
        return Err(ColorError::UnmatchedBracket(o));
    }
    buffer.raw("\x1b[0m");
    Ok(buffer.view())
}

/// The index just past the string literal that opens at 0: the first `"` at or
/// after `k` that no backslash escapes, or the length of `s` if there is none.
pub open spec fn literal_end(s: Seq<char>, k: int) -> int
    decreases s.len() - k,
{
    if k < 0 || k >= s.len() {
        s.len() as int
    } else if s[k] == '"' {
        k
    } else if s[k] == '\\' && k + 1 < s.len() {
        literal_end(s, k + 2)
    } else {
        literal_end(s, k + 1)
    }
}

/// A fault found in the literal's text, with indices moved by `d` characters.
pub open spec fn shifted(f: ColorFault, d: nat) -> ColorFault {
    match f {
        ColorFault::UnmatchedBracket(i) => ColorFault::UnmatchedBracket(i + d),
        ColorFault::NestedBracket(i) => ColorFault::NestedBracket(i + d),
        _ => f,
    }
}

/// The colored text and the argument section of the source text `src`.
///
/// `src` is a string literal, quotes included, optionally followed by the rest
/// of a formatting call (for example `, x, y`), which is kept as it is.
pub open spec fn scanned(src: Seq<char>) -> Result<(Seq<char>, Seq<char>), ColorFault> {
    if src.len() == 0 || src[0] != '"' {
        Err(ColorFault::MissingLiteralDelimiter)
    } else {
        let e = literal_end(src, 1);
        match rendered(src.subrange(1, e)) {
            Ok(t) => Ok(
                (
                    t,
                    if e < src.len() {
                        src.skip(e + 1)
                    } else {
                        Seq::empty()
                    },
                ),
            ),
            Err(f) => Err(shifted(f, 1)),
        }
    }
}

/// A fault that points into the text carries an index inside it.
pub open spec fn fault_within(f: ColorFault, len: nat) -> bool {
    match f {
        ColorFault::UnmatchedBracket(i) => i < len,
        ColorFault::NestedBracket(i) => i < len,
        _ => true,
    }
}

proof fn lemma_token_faults(st: Painted, toks: Seq<Seq<char>>)
    ensures
        apply_tokens(st, toks) is Err ==> fault_within(apply_tokens(st, toks)->Err_0, 0),
    decreases toks.len(),
{
    if toks.len() > 0 {
        lemma_token_faults(st, toks.drop_last());
    }
}

proof fn lemma_markup_faults(b: Seq<char>, i: int, st: Painted, open: Option<int>)
    requires
        open matches Some(o) ==> 0 <= o < b.len(),
    ensures
        markup(b, i, st, open) is Err ==> fault_within(markup(b, i, st, open)->Err_0, b.len()),
    decreases b.len() - i,
{
    if 0 <= i < b.len() {
        match open {
            None => {
                if b[i] == '[' && i + 1 < b.len() && b[i + 1] == '[' {
                    lemma_markup_faults(b, i + 2, (st.0.push('['), st.1), None);
                } else if b[i] == '[' {
                    lemma_markup_faults(b, i + 1, st, Some(i));
                } else if b[i] == ']' && i + 1 < b.len() && b[i + 1] == ']' {
                    lemma_markup_faults(b, i + 2, (st.0.push(']'), st.1), None);
                } else {
                    lemma_markup_faults(b, i + 1, (st.0.push(b[i]), st.1), None);
                }
            },
            Some(o) => {
                if b[i] != '[' && b[i] == ']' {
                    let e = b.subrange(o + 1, i);
                    let start: Painted = if e.len() > 0 && e[0] == ':' {
                        (flushed(st.0, st.1) + reset(), Seq::empty())
                    } else {
                        st
                    };
                    let body = if e.len() > 0 && e[0] == ':' {
                        e.skip(1)
                    } else {
                        e
                    };
                    lemma_token_faults(start, crate::mode::split_bar(body));
                    if let Ok(s) = resolve(st, e) {
                        lemma_markup_faults(b, i + 1, s, None);
                    }
                } else if b[i] != '[' {
                    lemma_markup_faults(b, i + 1, st, Some(o));
                }
            },
        }
    }
}

/// The result of coloring a source text: the colored literal text and the
/// argument section that followed the literal.
#[derive(Debug)]
pub struct Colorized {
    pub text: String,
    pub args: String,
}

/// Colors the string literal at the start of `source`.
///
/// `source` must begin with `"`. The literal ends at the first `"` that no
/// backslash escapes; its text is rendered as by [`render`], and everything
/// after the closing quote is returned untouched as the argument section, so
/// text passed as a formatting argument is never read as markup. Error indices
/// count characters of `source`.
pub fn scan(source: &str) -> (r: Result<Colorized, ColorError>)
    ensures
        match scanned(source@) {
            Ok(p) => r is Ok && r->Ok_0.text@ == p.0 && r->Ok_0.args@ == p.1,
            Err(f) => r is Err && r->Err_0@ == f,
        },
{
    let s = chars_of(source);
    let n = s.len();
    if n == 0 || s[0] != '"' {
        return Err(ColorError::MissingLiteralDelimiter);
    }
    let mut e: usize = 1;
    while e < n && s[e] != '"'
        invariant
            n == s@.len(),
            s@ == source@,
            1 <= e <= n,
            literal_end(s@, 1) == literal_end(s@, e as int),
        decreases n - e,
    {
        if s[e] == '\\' && e + 1 < n {
            e += 2;
        } else {
            e += 1;
        }
    }
    let body = source.substring_char(1, e);
    match render(body) {
        Ok(text) => {
            let args = if e < n {
                source.substring_char(e + 1, n)
            } else {
                ""
            };
            assert(e < n ==> source@.subrange(e + 1, n as int) =~= source@.skip(e + 1));
            proof {
                reveal_strlit("");
            }
            Ok(Colorized { text, args: String::from_str(args) })
        },
        Err(err) => {
            proof {
                lemma_markup_faults(body@, 0, (Seq::empty(), Seq::empty()), None);
            }
            let moved = match err {
                ColorError::UnmatchedBracket(i) => ColorError::UnmatchedBracket(i + 1),
                ColorError::NestedBracket(i) => ColorError::NestedBracket(i + 1),
                other => other,
            };
            Err(moved)
        },
    }
}

} // verus!
