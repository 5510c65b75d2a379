//! Laws of the scanner, proved from its specification.

use vstd::prelude::*;
use crate::buffer::{flushed, join_code, sgr};
use crate::mode::{Painted, apply_tokens, reset, resolve, split_bar, style_code, token_effect};
use crate::scan::{literal_end, markup, rendered, scanned, shifted};

verus! {

/// Whether `s` holds no `[` and no `]`.
pub open spec fn bracket_free(s: Seq<char>) -> bool {
    forall|k: int| 0 <= k < s.len() ==> #[trigger] s[k] != '[' && s[k] != ']'
}

/// Outside a mode expression, a run without brackets is copied as it is.
proof fn lemma_plain_run(b: Seq<char>, i: int, j: int, st: Painted)
    requires
        0 <= i <= j <= b.len(),
        bracket_free(b.subrange(i, j)),
    ensures
        markup(b, i, st, None) == markup(b, j, (st.0 + b.subrange(i, j), st.1), None),
    decreases j - i,
{
    if i < j {
        assert(b.subrange(i, j)[0] == b[i]);
        assert(bracket_free(b.subrange(i + 1, j))) by {
            assert forall|k: int| 0 <= k < b.subrange(i + 1, j).len() implies #[trigger] b.subrange(
                i + 1,
                j,
            )[k] != '[' && b.subrange(i + 1, j)[k] != ']' by {
                assert(b.subrange(i + 1, j)[k] == b.subrange(i, j)[k + 1]);
            }
        }
        lemma_plain_run(b, i + 1, j, (st.0.push(b[i]), st.1));
        assert(st.0.push(b[i]) + b.subrange(i + 1, j) =~= st.0 + b.subrange(i, j));
    } else {
        assert(st.0 + b.subrange(i, i) =~= st.0);
    }
}

/// Inside a mode expression, a run without brackets is read on.
proof fn lemma_mode_run(b: Seq<char>, i: int, j: int, st: Painted, o: int)
    requires
        0 <= i <= j <= b.len(),
        bracket_free(b.subrange(i, j)),
    ensures
        markup(b, i, st, Some(o)) == markup(b, j, st, Some(o)),
    decreases j - i,
{
    if i < j {
        assert(b.subrange(i, j)[0] == b[i]);
        assert(bracket_free(b.subrange(i + 1, j))) by {
            assert forall|k: int| 0 <= k < b.subrange(i + 1, j).len() implies #[trigger] b.subrange(
                i + 1,
                j,
            )[k] != '[' && b.subrange(i + 1, j)[k] != ']' by {
                assert(b.subrange(i + 1, j)[k] == b.subrange(i, j)[k + 1]);
            }
        }
        lemma_mode_run(b, i + 1, j, st, o);
    }
}

/// Text without brackets comes out unchanged, followed by a full reset.
pub proof fn lemma_plain_text(b: Seq<char>)
    requires
        bracket_free(b),
    ensures
        rendered(b) == Ok::<Seq<char>, crate::error::ColorFault>(b + reset()),
{
    assert(b.subrange(0, b.len() as int) =~= b);
    lemma_plain_run(b, 0, b.len() as int, (Seq::empty(), Seq::empty()));
    assert(Seq::<char>::empty() + b =~= b);
}

/// Outside a mode expression, `[[` writes one literal `[` and `]]` one
/// literal `]`, whatever came before.
pub proof fn lemma_doubled_brackets(b: Seq<char>, i: int, st: Painted)
    requires
        0 <= i,
        i + 1 < b.len(),
    ensures
        b[i] == '[' && b[i + 1] == '[' ==> markup(b, i, st, None) == markup(
            b,
            i + 2,
            (st.0.push('['), st.1),
            None,
        ),
        b[i] == ']' && b[i + 1] == ']' ==> markup(b, i, st, None) == markup(
            b,
            i + 2,
            (st.0.push(']'), st.1),
            None,
        ),
{
}

/// The names of the style table are plain words with a non-empty code.
proof fn lemma_style_names(t: Seq<char>)
    requires
        style_code(t) is Some,
    ensures
        t.len() > 0,
        t[0] != ':',
        forall|k: int|
            0 <= k < t.len() ==> #[trigger] t[k] != '[' && t[k] != ']' && t[k] != '|',
        style_code(t)->Some_0.len() > 0,
{
    reveal_strlit("bold");
    reveal_strlit("b");
    reveal_strlit("dim");
    reveal_strlit("faint");
    reveal_strlit("italic");
    reveal_strlit("i");
    reveal_strlit("underline");
    reveal_strlit("u");
    reveal_strlit("inverse");
    reveal_strlit("!");
    reveal_strlit("hidden");
    reveal_strlit("strikethrough");
    reveal_strlit("s");
    reveal_strlit("black");
    reveal_strlit("red");
    reveal_strlit("green");
    reveal_strlit("yellow");
    reveal_strlit("blue");
    reveal_strlit("magenta");
    reveal_strlit("cyan");
    reveal_strlit("white");
    reveal_strlit("default");
    reveal_strlit("def");
    reveal_strlit("?black");
    reveal_strlit("?red");
    reveal_strlit("?green");
    reveal_strlit("?yellow");
    reveal_strlit("?blue");
    reveal_strlit("?magenta");
    reveal_strlit("?cyan");
    reveal_strlit("?white");
    reveal_strlit("?default");
    reveal_strlit("?def");
    reveal_strlit("1");
    reveal_strlit("2");
    reveal_strlit("3");
    reveal_strlit("4");
    reveal_strlit("7");
    reveal_strlit("8");
    reveal_strlit("9");
    reveal_strlit("30");
    reveal_strlit("31");
    reveal_strlit("32");
    reveal_strlit("33");
    reveal_strlit("34");
    reveal_strlit("35");
    reveal_strlit("36");
    reveal_strlit("37");
    reveal_strlit("39");
    reveal_strlit("40");
    reveal_strlit("41");
    reveal_strlit("42");
    reveal_strlit("43");
    reveal_strlit("44");
    reveal_strlit("45");
    reveal_strlit("46");
    reveal_strlit("47");
    reveal_strlit("49");
}

/// A text without `|` is one token.
proof fn lemma_single_token(t: Seq<char>)
    requires
        forall|k: int| 0 <= k < t.len() ==> #[trigger] t[k] != '|',
    ensures
        split_bar(t) == seq![t],
    decreases t.len(),
{
    if t.len() > 0 {
        assert(forall|k: int| 0 <= k < t.drop_last().len() ==> t.drop_last()[k] == t[k]);
        lemma_single_token(t.drop_last());
        assert(t.last() != '|');
        assert(t.drop_last().push(t.last()) =~= t);
        assert(seq![t.drop_last()].update(0, t.drop_last().push(t.last())) =~= seq![t]);
    } else {
        assert(t =~= Seq::<char>::empty());
    }
}

/// A mode expression holding one named style or color writes exactly its code,
/// as one escape sequence.
pub proof fn lemma_named_mode(t: Seq<char>)
    requires
        style_code(t) is Some,
    ensures
        rendered(seq!['['] + t + seq![']']) == Ok::<Seq<char>, crate::error::ColorFault>(
            sgr(style_code(t)->Some_0) + reset(),
        ),
{
    lemma_style_names(t);
    lemma_single_token(t);
    let b = seq!['['] + t + seq![']'];
    let n = t.len() as int;
    let e: Painted = (Seq::empty(), Seq::empty());
    let c = style_code(t)->Some_0;
    assert(b[0] == '[');
    assert(b[1] == t[0]);
    assert(b[n + 1] == ']');
    assert(b.subrange(1, n + 1) =~= t);
    lemma_mode_run(b, 1, n + 1, e, 0);
    assert(seq![t].drop_last() =~= Seq::<Seq<char>>::empty());
    assert(crate::mode::apply_tokens(e, seq![t].drop_last()) == Ok::<
        Painted,
        crate::error::ColorFault,
    >(e));
    assert(crate::mode::token_effect(t) == crate::mode::Effect::Code(c));
    assert(crate::mode::apply_tokens(e, seq![t]) == Ok::<Painted, crate::error::ColorFault>(
        (Seq::empty(), c),
    ));
    assert(Seq::<char>::empty() + sgr(c) =~= sgr(c));
    assert(resolve(e, t) == Ok::<Painted, crate::error::ColorFault>((sgr(c), Seq::empty())));
    assert(markup(b, 0, e, None) == markup(b, 1, e, Some(0)));
    assert(markup(b, n + 2, (sgr(c), Seq::empty()), None) == Ok::<
        Painted,
        crate::error::ColorFault,
    >((sgr(c), Seq::empty())));
}

/// Reading the quoted text `x` from `k` on finds the same quote inside a
/// longer source that starts with `"`.
proof fn lemma_literal_end_within(x: Seq<char>, rest: Seq<char>, k: int)
    requires
        0 <= k <= x.len(),
        literal_end(x, k) < x.len(),
    ensures
        literal_end(seq!['"'] + x + rest, k + 1) == literal_end(x, k) + 1,
    decreases x.len() - k,
{
    let src = seq!['"'] + x + rest;
    assert(src[k + 1] == x[k]);
    if x[k] == '"' {
    } else if x[k] == '\\' && k + 1 < x.len() {
        lemma_literal_end_within(x, rest, k + 2);
    } else {
        lemma_literal_end_within(x, rest, k + 1);
    }
}

/// The text after a string literal is handed on untouched: it is never read
/// as markup, and the colored text depends on the literal's text alone.
///
/// `b` is the text of a literal: read with its closing quote, the first quote
/// that no backslash escapes is that closing one.
pub proof fn lemma_arguments_untouched(b: Seq<char>, args: Seq<char>)
    requires
        literal_end(b + seq!['"'], 0) == b.len(),
    ensures
        scanned(seq!['"'] + b + seq!['"'] + args) == match rendered(b) {
            Ok(t) => Ok((t, args)),
            Err(f) => Err(shifted(f, 1)),
        },
{
    let x = b + seq!['"'];
    let src = seq!['"'] + b + seq!['"'] + args;
    assert(src =~= seq!['"'] + x + args);
    lemma_literal_end_within(x, args, 0);
    assert(src.subrange(1, b.len() as int + 1) =~= b);
    assert(src.skip(b.len() as int + 2) =~= args);
}

/// The codes of `toks`, each of which names a code, joined onto `pending` by `;`.
pub open spec fn codes_joined(pending: Seq<char>, toks: Seq<Seq<char>>) -> Seq<char>
    decreases toks.len(),
{
    if toks.len() == 0 {
        pending
    } else {
        join_code(codes_joined(pending, toks.drop_last()), token_effect(toks.last())->Code_0)
    }
}

proof fn lemma_codes_accumulate(st: Painted, toks: Seq<Seq<char>>)
    requires
        forall|k: int| 0 <= k < toks.len() ==> token_effect(#[trigger] toks[k]) is Code,
    ensures
        apply_tokens(st, toks) == Ok::<Painted, crate::error::ColorFault>(
            (st.0, codes_joined(st.1, toks)),
        ),
    decreases toks.len(),
{
    if toks.len() > 0 {
        let front = toks.drop_last();
        assert(forall|k: int| 0 <= k < front.len() ==> front[k] == toks[k]);
        lemma_codes_accumulate(st, front);
        assert(token_effect(toks[toks.len() - 1]) is Code);
    }
}

/// A mode expression whose tokens all name codes writes them as one escape
/// sequence, in the order written, and leaves nothing pending.
pub proof fn lemma_coalesced(text: Seq<char>, e: Seq<char>)
    requires
        e.len() == 0 || e[0] != ':',
        forall|k: int|
            0 <= k < split_bar(e).len() ==> token_effect(#[trigger] split_bar(e)[k]) is Code,
    ensures
        resolve((text, Seq::empty()), e) == Ok::<Painted, crate::error::ColorFault>(
            (flushed(text, codes_joined(Seq::empty(), split_bar(e))), Seq::empty()),
        ),
{
    lemma_codes_accumulate((text, Seq::empty()), split_bar(e));
}

} // verus!
