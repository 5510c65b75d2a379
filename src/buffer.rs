//! The sequence builder: collects SGR codes and writes them as one escape sequence.

use vstd::prelude::*;

verus! {

/// Relies on `String::with_capacity`: the new string is empty.
pub assume_specification[ String::with_capacity ](capacity: usize) -> (r: String)
    ensures
        r@ == Seq::<char>::empty(),
;

/// Relies on `String::push`: the character is appended at the end.
pub assume_specification[ String::push ](s: &mut String, ch: char)
    ensures
        final(s)@ == old(s)@.push(ch),
;

/// The escape character that starts every control sequence.
pub const ESC: char = '\x1b';

/// `ESC [ codes m`: one Select Graphic Rendition sequence.
pub open spec fn sgr(codes: Seq<char>) -> Seq<char> {
    seq![ESC, '['] + codes + seq!['m']
}

/// The pending codes after `code` is added to `pending`, joined by `;`.
pub open spec fn join_code(pending: Seq<char>, code: Seq<char>) -> Seq<char> {
    if pending.len() == 0 {
        code
    } else {
        pending + seq![';'] + code
    }
}

/// The text after the pending codes are written out as one sequence.
pub open spec fn flushed(text: Seq<char>, pending: Seq<char>) -> Seq<char> {
    if pending.len() == 0 {
        text
    } else {
        text + sgr(pending)
    }
}

/// Text under construction, with the SGR codes not yet written out.
///
/// `text` is what has been produced so far; `next` holds the codes waiting to
/// be coalesced into one escape sequence, separated by `;`.
#[derive(Debug)]
pub struct ColorString {
    pub text: String,
    pub next: String,
}

impl ColorString {
    /// An empty builder; `cap` is the expected length of the text.
    pub fn new(cap: usize) -> (r: Self)
        ensures
            r.text@ == Seq::<char>::empty(),
            r.next@ == Seq::<char>::empty(),
    {
        ColorString { text: String::with_capacity(cap), next: String::with_capacity(16) }
    }

    /// Adds one code to the pending sequence, without writing anything.
    pub fn add(&mut self, style: &str)
        ensures
            final(self).text@ == old(self).text@,
            final(self).next@ == join_code(old(self).next@, style@),
    {
        if !self.next.as_str().is_empty() {
            self.next.push(';');
        }
        self.next.append(style);
    }

    /// Writes out the pending codes, then appends `style` as it is.
    pub fn raw(&mut self, style: &str)
        ensures
            final(self).text@ == flushed(old(self).text@, old(self).next@) + style@,
            final(self).next@ == Seq::<char>::empty(),
    {
        self.next();
        self.text.append(style);
    }

    /// Writes out the pending codes as one escape sequence, if there are any.
    pub fn next(&mut self)
        ensures
            final(self).text@ == flushed(old(self).text@, old(self).next@),
            final(self).next@ == Seq::<char>::empty(),
    {
        if !self.next.as_str().is_empty() {
            self.text.push(ESC);
            self.text.push('[');
            self.text.append(self.next.as_str());
            self.text.push('m');
            self.next = String::new();
        }
    }

    /// Appends one literal character.
    pub fn push(&mut self, chr: char)
        ensures
            final(self).text@ == old(self).text@.push(chr),
            final(self).next@ == old(self).next@,
    {
        self.text.push(chr);
    }

    /// The text produced so far; pending codes are not included.
    pub fn view(self) -> (r: String)
        ensures
            r@ == self.text@,
    {
        self.text
    }
}

} // verus!
