//! The mode resolver: turns the content of one `[...]` into SGR codes.

use vstd::prelude::*;
use crate::buffer::{ColorString, join_code, flushed};
use crate::error::{ColorError, ColorFault};

verus! {

/// The full reset sequence, `ESC[0m`.
pub open spec fn reset() -> Seq<char> {
    "\x1b[0m"@
}

/// The SGR code of a named style or color.
pub open spec fn style_code(t: Seq<char>) -> Option<Seq<char>> {
    if t == "bold"@ || t == "b"@ {
        Some("1"@)
    } else if t == "dim"@ || t == "faint"@ {
        Some("2"@)
    } else if t == "italic"@ || t == "i"@ {
        Some("3"@)
    } else if t == "underline"@ || t == "u"@ {
        Some("4"@)
    } else if t == "inverse"@ || t == "!"@ {
        Some("7"@)
    } else if t == "hidden"@ {
        Some("8"@)
    } else if t == "strikethrough"@ || t == "s"@ {
        Some("9"@)
    } else if t == "black"@ {
        Some("30"@)
    } else if t == "red"@ {
        Some("31"@)
    } else if t == "green"@ {
        Some("32"@)
    } else if t == "yellow"@ {
        Some("33"@)
    } else if t == "blue"@ {
        Some("34"@)
    } else if t == "magenta"@ {
        Some("35"@)
    } else if t == "cyan"@ {
        Some("36"@)
    } else if t == "white"@ {
        Some("37"@)
    } else if t == "default"@ || t == "def"@ {
        Some("39"@)
    } else if t == "?black"@ {
        Some("40"@)
    } else if t == "?red"@ {
        Some("41"@)
    } else if t == "?green"@ {
        Some("42"@)
    } else if t == "?yellow"@ {
        Some("43"@)
    } else if t == "?blue"@ {
        Some("44"@)
    } else if t == "?magenta"@ {
        Some("45"@)
    } else if t == "?cyan"@ {
        Some("46"@)
    } else if t == "?white"@ {
        Some("47"@)
    } else if t == "?default"@ || t == "?def"@ {
        Some("49"@)
    } else {
        None
    }
}

/// The fixed escape sequence of a visibility or blink control.
pub open spec fn raw_sequence(t: Seq<char>) -> Option<Seq<char>> {
    if t == "visible"@ || t == "vis"@ {
        Some("\x1b[?25l"@)
    } else if t == "invisible"@ || t == "invis"@ {
        Some("\x1b[?25h"@)
    } else if t == "blink"@ {
        Some("\x1b[5m"@)
    } else if t == "noblink"@ {
        Some("\x1b[25m"@)
    } else {
        None
    }
}

pub open spec fn is_digit(c: char) -> bool {
    '0' <= c && c <= '9'
}

/// A non-empty run of decimal digits.
pub open spec fn is_decimal(s: Seq<char>) -> bool {
    s.len() > 0 && forall|k: int| 0 <= k < s.len() ==> is_digit(#[trigger] s[k])
}

pub open spec fn is_hex_digit(c: char) -> bool {
    ('0' <= c && c <= '9') || ('a' <= c && c <= 'f') || ('A' <= c && c <= 'F')
}

/// Exactly six hex digits.
pub open spec fn is_hex_code(s: Seq<char>) -> bool {
    s.len() == 6 && forall|k: int| 0 <= k < s.len() ==> is_hex_digit(#[trigger] s[k])
}

/// The value of a hex digit.
pub open spec fn hex_value(c: char) -> nat {
    if '0' <= c && c <= '9' {
        (c as nat - '0' as nat) as nat
    } else if 'a' <= c && c <= 'f' {
        (c as nat - 'a' as nat + 10) as nat
    } else {
        (c as nat - 'A' as nat + 10) as nat
    }
}

/// The byte written by the two hex digits at `k` and `k + 1`.
pub open spec fn hex_byte(s: Seq<char>, k: int) -> nat {
    16 * hex_value(s[k]) + hex_value(s[k + 1])
}

pub open spec fn digit_char(d: nat) -> char {
    if d == 0 {
        '0'
    } else if d == 1 {
        '1'
    } else if d == 2 {
        '2'
    } else if d == 3 {
        '3'
    } else if d == 4 {
        '4'
    } else if d == 5 {
        '5'
    } else if d == 6 {
        '6'
    } else if d == 7 {
        '7'
    } else if d == 8 {
        '8'
    } else {
        '9'
    }
}

/// `n` written in decimal, without leading zeros.
pub open spec fn decimal(n: nat) -> Seq<char>
    decreases n,
{
    if n < 10 {
        seq![digit_char(n)]
    } else {
        decimal(n / 10).push(digit_char(n % 10))
    }
}

/// `prefix` followed by the three bytes of the hex code `h`, in decimal, separated by `;`.
pub open spec fn rgb_codes(prefix: Seq<char>, h: Seq<char>) -> Seq<char> {
    prefix + decimal(hex_byte(h, 0)) + seq![';'] + decimal(hex_byte(h, 2)) + seq![';']
        + decimal(hex_byte(h, 4))
}

/// Whether `?#` occurs in `t`.
pub open spec fn has_background_hash(t: Seq<char>) -> bool {
    exists|k: int| 0 <= k && k + 1 < t.len() && #[trigger] t[k] == '?' && t[k + 1] == '#'
}

/// What one token of a mode expression does.
pub enum Effect {
    /// Nothing (an empty token).
    Skip,
    /// Adds an SGR code to the pending sequence.
    Code(Seq<char>),
    /// Writes out the pending codes, then a fixed sequence.
    Raw(Seq<char>),
    /// Fails the whole expression.
    Fail(ColorFault),
}

/// The effect of one token.
pub open spec fn token_effect(t: Seq<char>) -> Effect {
    if let Some(c) = style_code(t) {
        Effect::Code(c)
    } else if let Some(r) = raw_sequence(t) {
        Effect::Raw(r)
    } else if t.len() == 0 {
        Effect::Skip
    } else if is_decimal(t) {
        if t.len() <= 3 {
            Effect::Code("38;5;"@ + t)
        } else {
            Effect::Fail(ColorFault::MalformedNumericCode(t))
        }
    } else if t[0] == '?' && is_decimal(t.skip(1)) {
        if t.len() <= 4 {
            Effect::Code("48;5;"@ + t.skip(1))
        } else {
            Effect::Fail(ColorFault::MalformedNumericCode(t))
        }
    } else if t[0] == '#' && is_hex_code(t.skip(1)) {
        Effect::Code(rgb_codes("38;2;"@, t.skip(1)))
    } else if t.len() >= 2 && t[0] == '?' && t[1] == '#' && is_hex_code(t.skip(2)) {
        Effect::Code(rgb_codes("48;2;"@, t.skip(2)))
    } else if t[0] == '#' || has_background_hash(t) {
        Effect::Fail(ColorFault::MalformedHexCode(t))
    } else {
        Effect::Fail(ColorFault::UnknownModifier(t))
    }
}

/// The state of a [`ColorString`]: the text so far and the pending codes.
pub type Painted = (Seq<char>, Seq<char>);

pub open spec fn painted(b: ColorString) -> Painted {
    (b.text@, b.next@)
}

pub open spec fn apply_effect(st: Painted, e: Effect) -> Result<Painted, ColorFault> {
    match e {
        Effect::Skip => Ok(st),
        Effect::Code(c) => Ok((st.0, join_code(st.1, c))),
        Effect::Raw(r) => Ok((flushed(st.0, st.1) + r, Seq::empty())),
        Effect::Fail(f) => Err(f),
    }
}

/// Applies the tokens from left to right; the first failure ends it.
pub open spec fn apply_tokens(st: Painted, toks: Seq<Seq<char>>) -> Result<Painted, ColorFault>
    decreases toks.len(),
{
    if toks.len() == 0 {
        Ok(st)
    } else {
        match apply_tokens(st, toks.drop_last()) {
            Ok(s) => apply_effect(s, token_effect(toks.last())),
            Err(f) => Err(f),
        }
    }
}

/// The pieces of `s` between the `|` separators (one piece when there is none).
pub open spec fn split_bar(s: Seq<char>) -> Seq<Seq<char>>
    decreases s.len(),
{
    if s.len() == 0 {
        seq![Seq::empty()]
    } else {
        let parts = split_bar(s.drop_last());
        if s.last() == '|' {
            parts.push(Seq::empty())
        } else {
            parts.update(parts.len() - 1, parts.last().push(s.last()))
        }
    }
}

/// The state after the mode expression `e` (the text between `[` and `]`).
///
/// A leading `:` writes a full reset first. The pending codes are written out
/// as one sequence at the end.
pub open spec fn resolve(st: Painted, e: Seq<char>) -> Result<Painted, ColorFault> {
    let start: Painted = if e.len() > 0 && e[0] == ':' {
        (flushed(st.0, st.1) + reset(), Seq::empty())
    } else {
        st
    };
    let body = if e.len() > 0 && e[0] == ':' {
        e.skip(1)
    } else {
        e
    };
    match apply_tokens(start, split_bar(body)) {
        Ok(s) => Ok((flushed(s.0, s.1), Seq::<char>::empty())),
        Err(f) => Err(f),
    }
}

/// Whether two texts hold the same characters.
fn same_text(a: &str, b: &str) -> (r: bool)
    ensures
        r == (a@ == b@),
{
    let n = a.unicode_len();
    if n != b.unicode_len() {
        return false;
    }
    let mut i: usize = 0;
    while i < n
        invariant
            n == a@.len(),
            n == b@.len(),
            i <= n,
            forall|k: int| 0 <= k < i ==> a@[k] == b@[k],
        decreases n - i,
    {
        if a.get_char(i) != b.get_char(i) {
            return false;
        }
        i += 1;
    }
    assert(a@ =~= b@);
    true
}

/// The SGR code of a named style or color, if `t` is one.
fn lookup_style(t: &str) -> (r: Option<&'static str>)
    ensures
        r is None ==> style_code(t@) is None,
        r is Some ==> style_code(t@) == Some(r->Some_0@),
{
    if same_text(t, "bold") || same_text(t, "b") {
        Some("1")
    } else if same_text(t, "dim") || same_text(t, "faint") {
        Some("2")
    } else if same_text(t, "italic") || same_text(t, "i") {
        Some("3")
    } else if same_text(t, "underline") || same_text(t, "u") {
        Some("4")
    } else if same_text(t, "inverse") || same_text(t, "!") {
        Some("7")
    } else if same_text(t, "hidden") {
        Some("8")
    } else if same_text(t, "strikethrough") || same_text(t, "s") {
        Some("9")
    } else if same_text(t, "black") {
        Some("30")
    } else if same_text(t, "red") {
        Some("31")
    } else if same_text(t, "green") {
        Some("32")
    } else if same_text(t, "yellow") {
        Some("33")
    } else if same_text(t, "blue") {
        Some("34")
    } else if same_text(t, "magenta") {
        Some("35")
    } else if same_text(t, "cyan") {
        Some("36")
    } else if same_text(t, "white") {
        Some("37")
    } else if same_text(t, "default") || same_text(t, "def") {
        Some("39")
    } else if same_text(t, "?black") {
        Some("40")
    } else if same_text(t, "?red") {
        Some("41")
    } else if same_text(t, "?green") {
        Some("42")
    } else if same_text(t, "?yellow") {
        Some("43")
    } else if same_text(t, "?blue") {
        Some("44")
    } else if same_text(t, "?magenta") {
        Some("45")
    } else if same_text(t, "?cyan") {
        Some("46")
    } else if same_text(t, "?white") {
        Some("47")
    } else if same_text(t, "?default") || same_text(t, "?def") {
        Some("49")
    } else {
        None
    }
}

/// The fixed sequence of a visibility or blink control, if `t` is one.
fn lookup_raw(t: &str) -> (r: Option<&'static str>)
    ensures
        r is None ==> raw_sequence(t@) is None,
        r is Some ==> raw_sequence(t@) == Some(r->Some_0@),
{
    if same_text(t, "visible") || same_text(t, "vis") {
        Some("\x1b[?25l")
    } else if same_text(t, "invisible") || same_text(t, "invis") {
        Some("\x1b[?25h")
    } else if same_text(t, "blink") {
        Some("\x1b[5m")
    } else if same_text(t, "noblink") {
        Some("\x1b[25m")
    } else {
        None
    }
}

/// Whether the characters of `t` from `from` on are a non-empty run of digits.
fn decimal_from(t: &str, from: usize) -> (r: bool)
    requires
        from <= t@.len(),
    ensures
        r == is_decimal(t@.skip(from as int)),
{
    let n = t.unicode_len();
    if from == n {
        return false;
    }
    let mut i: usize = from;
    while i < n
        invariant
            n == t@.len(),
            from <= i <= n,
            forall|k: int| from <= k < i ==> is_digit(#[trigger] t@[k]),
        decreases n - i,
    {
        let c = t.get_char(i);
        if !('0' <= c && c <= '9') {
            assert(t@.skip(from as int)[i - from] == c);
            return false;
        }
        i += 1;
    }
    assert forall|k: int| 0 <= k < t@.skip(from as int).len() implies is_digit(
        #[trigger] t@.skip(from as int)[k],
    ) by {
        assert(t@.skip(from as int)[k] == t@[from + k]);
    }
    true
}

/// Whether the characters of `t` from `from` on are exactly six hex digits.
fn hex_from(t: &str, from: usize) -> (r: bool)
    requires
        from <= t@.len(),
    ensures
        r == is_hex_code(t@.skip(from as int)),
{
    let n = t.unicode_len();
    if n - from != 6 {
        return false;
    }
    let mut i: usize = from;
    while i < n
        invariant
            n == t@.len(),
            n - from == 6,
            from <= i <= n,
            forall|k: int| from <= k < i ==> is_hex_digit(#[trigger] t@[k]),
        decreases n - i,
    {
        let c = t.get_char(i);
        if !(('0' <= c && c <= '9') || ('a' <= c && c <= 'f') || ('A' <= c && c <= 'F')) {
            assert(t@.skip(from as int)[i - from] == c);
            return false;
        }
        i += 1;
    }
    assert forall|k: int| 0 <= k < t@.skip(from as int).len() implies is_hex_digit(
        #[trigger] t@.skip(from as int)[k],
    ) by {
        assert(t@.skip(from as int)[k] == t@[from + k]);
    }
    true
}

/// Whether `?#` occurs in `t`.
fn find_background_hash(t: &str) -> (r: bool)
    ensures
        r == has_background_hash(t@),
{
    let n = t.unicode_len();
    let mut i: usize = 0;
    while n > 0 && i < n - 1
        invariant
            n == t@.len(),
            forall|k: int| 0 <= k < i && k + 1 < n ==> !(#[trigger] t@[k] == '?' && t@[k + 1] == '#'),
        decreases n - i,
    {
        if t.get_char(i) == '?' && t.get_char(i + 1) == '#' {
            return true;
        }
        i += 1;
    }
    false
}

/// The value of a hex digit.
fn hex_digit_value(c: char) -> (r: u8)
    requires
        is_hex_digit(c),
    ensures
        r as nat == hex_value(c),
        r < 16,
{
    if '0' <= c && c <= '9' {
        (c as u32 - '0' as u32) as u8
    } else if 'a' <= c && c <= 'f' {
        (c as u32 - 'a' as u32 + 10) as u8
    } else {
        (c as u32 - 'A' as u32 + 10) as u8
    }
}

/// The byte written by the hex digits at `k` and `k + 1`.
fn hex_byte_at(t: &str, k: usize) -> (r: u8)
    requires
        k + 1 < t@.len(),
        is_hex_digit(t@[k as int]),
        is_hex_digit(t@[k + 1]),
    ensures
        r as nat == hex_byte(t@, k as int),
{
    let _ = t.unicode_len();
    let hi = hex_digit_value(t.get_char(k));
    let lo = hex_digit_value(t.get_char(k + 1));
    16 * hi + lo
}

/// The character of a decimal digit.
fn digit(d: u8) -> (c: char)
    requires
        d < 10,
    ensures
        c == digit_char(d as nat),
{
    match d {
        0 => '0',
        1 => '1',
        2 => '2',
        3 => '3',
        4 => '4',
        5 => '5',
        6 => '6',
        7 => '7',
        8 => '8',
        _ => '9',
    }
}

/// Appends `n` in decimal.
fn push_decimal(s: &mut String, n: u8)
    ensures
        final(s)@ == old(s)@ + decimal(n as nat),
{
    let ghost s0 = s@;
    let ghost m = n as nat;
    if n >= 100 {
        s.push(digit(n / 100));
        s.push(digit(n / 10 % 10));
        s.push(digit(n % 10));
        assert((m / 10) / 10 == m / 100);
        assert(decimal(m / 100) == seq![digit_char(m / 100)]);
        assert(decimal(m / 10) == decimal(m / 100).push(digit_char((m / 10) % 10)));
        assert(decimal(m) == decimal(m / 10).push(digit_char(m % 10)));
        assert(s@ =~= s0 + decimal(m));
    } else if n >= 10 {
        s.push(digit(n / 10));
        s.push(digit(n % 10));
        assert(decimal(m / 10) == seq![digit_char(m / 10)]);
        assert(decimal(m) == decimal(m / 10).push(digit_char(m % 10)));
        assert(s@ =~= s0 + decimal(m));
    } else {
        s.push(digit(n));
        assert(s@ =~= s0 + decimal(m));
    }
}

/// `prefix` followed by the three bytes of the hex code in `t` from `from` on.
fn rgb_text(prefix: &str, t: &str, from: usize) -> (r: String)
    requires
        from <= t@.len(),
        is_hex_code(t@.skip(from as int)),
    ensures
        r@ == rgb_codes(prefix@, t@.skip(from as int)),
{
    let _ = t.unicode_len();
    let ghost h = t@.skip(from as int);
    assert(forall|k: int| 0 <= k < 6 ==> h[k] == t@[from + k]);
    assert(is_hex_digit(h[0]) && is_hex_digit(h[1]) && is_hex_digit(h[2]));
    assert(is_hex_digit(h[3]) && is_hex_digit(h[4]) && is_hex_digit(h[5]));
    let red = hex_byte_at(t, from);
    let green = hex_byte_at(t, from + 2);
    let blue = hex_byte_at(t, from + 4);
    let mut r = String::from_str(prefix);
    push_decimal(&mut r, red);
    r.push(';');
    push_decimal(&mut r, green);
    r.push(';');
    push_decimal(&mut r, blue);
    assert(r@ =~= rgb_codes(prefix@, h));
    r
}

/// Applies one token to `buffer`.
pub fn resolve_token(tok: &str, buffer: &mut ColorString) -> (r: Result<(), ColorError>)
    ensures
        match apply_effect(painted(*old(buffer)), token_effect(tok@)) {
            Ok(s) => r is Ok && painted(*final(buffer)) == s,
            Err(f) => r is Err && r->Err_0@ == f,
        },
{
    if let Some(code) = lookup_style(tok) {
        buffer.add(code);
        return Ok(());
    }
    if let Some(seq) = lookup_raw(tok) {
        buffer.raw(seq);
        return Ok(());
    }
    let n = tok.unicode_len();
    if n == 0 {
        return Ok(());
    }
    let first = tok.get_char(0);
    assert(tok@.skip(0) =~= tok@);
    if decimal_from(tok, 0) {
        if n <= 3 {
            let mut code = String::from_str("38;5;");
            code.append(tok);
            buffer.add(code.as_str());
            return Ok(());
        } else {
            return Err(ColorError::MalformedNumericCode(String::from_str(tok)));
        }
    }
    if first == '?' && decimal_from(tok, 1) {
        if n <= 4 {
            let mut code = String::from_str("48;5;");
            code.append(tok.substring_char(1, n));
            assert(tok@.subrange(1, n as int) =~= tok@.skip(1));
            buffer.add(code.as_str());
            return Ok(());
        } else {
            return Err(ColorError::MalformedNumericCode(String::from_str(tok)));
        }
    }
    if first == '#' && hex_from(tok, 1) {
        let code = rgb_text("38;2;", tok, 1);
        buffer.add(code.as_str());
        return Ok(());
    }
    if n >= 2 && first == '?' && tok.get_char(1) == '#' && hex_from(tok, 2) {
        let code = rgb_text("48;2;", tok, 2);
        buffer.add(code.as_str());
        return Ok(());
    }
    if first == '#' || find_background_hash(tok) {
        return Err(ColorError::MalformedHexCode(String::from_str(tok)));
    }
    Err(ColorError::UnknownModifier(String::from_str(tok)))
}

/// Once a prefix of the tokens fails, the whole sequence fails the same way.
proof fn lemma_failure_persists(st: Painted, toks: Seq<Seq<char>>, k: int)
    requires
        0 <= k <= toks.len(),
        apply_tokens(st, toks.subrange(0, k)) is Err,
    ensures
        apply_tokens(st, toks) == apply_tokens(st, toks.subrange(0, k)),
    decreases toks.len(),
{
    if k == toks.len() {
        assert(toks.subrange(0, k) =~= toks);
    } else {
        assert(toks.drop_last().subrange(0, k) =~= toks.subrange(0, k));
        lemma_failure_persists(st, toks.drop_last(), k);
    }
}

/// The views of a list of strings.
pub open spec fn views(v: Seq<String>) -> Seq<Seq<char>> {
    v.map_values(|s: String| s@)
}

/// Splits the characters of `text` from `from` on at each `|`.
fn split_tokens(text: &str, from: usize) -> (r: Vec<String>)
    requires
        from <= text@.len(),
    ensures
        views(r@) == split_bar(text@.skip(from as int)),
{
    let n = text.unicode_len();
    let mut done: Vec<String> = Vec::new();
    let mut cur = String::new();
    let mut i: usize = from;
    assert(text@.subrange(from as int, from as int) =~= Seq::<char>::empty());
    assert(views(done@).push(cur@) =~= seq![Seq::<char>::empty()]);
    while i < n
        invariant
            n == text@.len(),
            from <= i <= n,
            views(done@).push(cur@) == split_bar(text@.subrange(from as int, i as int)),
        decreases n - i,
    {
        let c = text.get_char(i);
        let ghost prefix = text@.subrange(from as int, i as int);
        let ghost parts = views(done@).push(cur@);
        assert(text@.subrange(from as int, i + 1).drop_last() =~= prefix);
        assert(text@.subrange(from as int, i + 1).last() == c);
        if c == '|' {
            done.push(cur);
            cur = String::new();
            assert(views(done@).push(cur@) =~= parts.push(Seq::empty()));
        } else {
            cur.push(c);
            assert(views(done@).push(cur@) =~= parts.update(
                parts.len() - 1,
                parts.last().push(c),
            ));
        }
        i += 1;
    }
    let ghost last = views(done@).push(cur@);
    done.push(cur);
    assert(views(done@) =~= last);
    assert(text@.subrange(from as int, n as int) =~= text@.skip(from as int));
    done
}

/// Applies the mode expression `text` (the content of one `[...]`) to `buffer`.
///
/// A leading `:` writes a full reset; the remaining `|`-separated tokens are
/// applied from left to right, and their codes are written out together as
/// one escape sequence. On the first invalid token the error is returned.
pub fn parse(text: &str, buffer: &mut ColorString) -> (r: Result<(), ColorError>)
    ensures
        match resolve(painted(*old(buffer)), text@) {
            Ok(s) => r is Ok && painted(*final(buffer)) == s,
            Err(f) => r is Err && r->Err_0@ == f,
        },
{
    let n = text.unicode_len();
    let mut from: usize = 0;
    if n > 0 && text.get_char(0) == ':' {
        buffer.raw("\x1b[0m");
        from = 1;
    }
    assert(from == 0 ==> text@.skip(0) =~= text@);
    let ghost start = painted(*buffer);
    let toks = split_tokens(text, from);
    let ghost tv = views(toks@);
    let mut k: usize = 0;
    assert(tv.subrange(0, 0) =~= Seq::<Seq<char>>::empty());
    let ghost outcome: Result<Painted, ColorFault> = match apply_tokens(start, tv) {
        Ok(s) => Ok((flushed(s.0, s.1), Seq::<char>::empty())),
        Err(f) => Err(f),
    };
    assert(resolve(painted(*old(buffer)), text@) == outcome);
    while k < toks.len()
        invariant
            tv == views(toks@),
            resolve(painted(*old(buffer)), text@) == outcome,
            outcome == match apply_tokens(start, tv) {
                Ok(s) => Ok((flushed(s.0, s.1), Seq::<char>::empty())),
                Err(f) => Err(f),
            },
            k <= toks@.len(),
            apply_tokens(start, tv.subrange(0, k as int)) == Ok::<Painted, ColorFault>(
                painted(*buffer),
            ),
        decreases toks@.len() - k,
    {
        let ghost before = painted(*buffer);
        assert(tv.subrange(0, k + 1).drop_last() =~= tv.subrange(0, k as int));
        assert(tv.subrange(0, k + 1).last() == toks@[k as int]@);
        match resolve_token(toks[k].as_str(), buffer) {
            Ok(()) => {},
            Err(e) => {
                proof {
                    assert(apply_tokens(start, tv.subrange(0, k + 1)) == apply_effect(
                        before,
                        token_effect(toks@[k as int]@),
                    ));
                    lemma_failure_persists(start, tv, k + 1);
                }
                return Err(e);
            },
        }
        k += 1;
    }
    assert(tv.subrange(0, k as int) =~= tv);
    buffer.next();
    Ok(())
}

} // verus!
