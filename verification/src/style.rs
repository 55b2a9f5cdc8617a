//! Terminal styling as plain bytes. A style is the pair of byte strings that
//! a terminal control library emits before and after a styled piece of text;
//! the engine only ever concatenates them, so holding them as bytes lets every
//! contract state the output exactly. The convenience constructor
//! [`Style::fixed`] obtains the actual ANSI sequences from `nu_ansi_term`.

use vstd::prelude::*;

verus! {

/// The byte strings written before and after a styled piece of text.
pub struct Style {
    pub prefix: Vec<u8>,
    pub suffix: Vec<u8>,
}

/// The mathematical value of a [`Style`].
#[verifier::ext_equal]
pub ghost struct StyleView {
    pub prefix: Seq<u8>,
    pub suffix: Seq<u8>,
}

impl View for Style {
    type V = StyleView;

    open spec fn view(&self) -> StyleView {
        StyleView { prefix: self.prefix@, suffix: self.suffix@ }
    }
}

/// `text` wrapped in the style's markers.
pub open spec fn paint_spec(st: StyleView, text: Seq<u8>) -> Seq<u8> {
    st.prefix + text + st.suffix
}

/// The decimal digits of `n`, as `core::fmt` writes an unsigned integer.
pub open spec fn dec_digits(n: u8) -> Seq<u8> {
    if n < 10 {
        seq![(48 + n) as u8]
    } else if n < 100 {
        seq![(48 + n / 10) as u8, (48 + n % 10) as u8]
    } else {
        seq![(48 + n / 100) as u8, (48 + (n / 10) % 10) as u8, (48 + n % 10) as u8]
    }
}

/// The ANSI prefix of a 256-color foreground style: `ESC [ 3 8 ; 5 ;` then
/// the color number in decimal, then `m`.
pub open spec fn fixed_prefix(n: u8) -> Seq<u8> {
    seq![27u8, 91u8, 51u8, 56u8, 59u8, 53u8, 59u8] + dec_digits(n) + seq![109u8]
}

/// The ANSI reset sequence `ESC [ 0 m`, the suffix of every colored style.
pub open spec fn reset_suffix() -> Seq<u8> {
    seq![27u8, 91u8, 48u8, 109u8]
}

/// Relies on `nu_ansi_term::Style::prefix`: for a style whose only setting is
/// a fixed 256-color foreground it writes `ESC[38;5;<n>m`, with `<n>` the
/// color number in decimal.
#[verifier::external_body]
fn ansi_fixed_color_prefix(n: u8) -> (r: Vec<u8>)
    ensures
        r@ == fixed_prefix(n),
{
    let st = nu_ansi_term::Style::new().fg(nu_ansi_term::Color::Fixed(n));
    format!("{}", st.prefix()).into_bytes()
}

/// Relies on `nu_ansi_term::Style::suffix`: for any style that sets something
/// it writes the reset sequence `ESC[0m`.
#[verifier::external_body]
fn ansi_fixed_color_suffix(n: u8) -> (r: Vec<u8>)
    ensures
        r@ == reset_suffix(),
{
    let st = nu_ansi_term::Style::new().fg(nu_ansi_term::Color::Fixed(n));
    format!("{}", st.suffix()).into_bytes()
}

impl Style {
    /// A style from explicit before/after byte strings.
    pub fn new(prefix: Vec<u8>, suffix: Vec<u8>) -> (s: Style)
        ensures
            s@.prefix == prefix@,
            s@.suffix == suffix@,
    {
        Style { prefix, suffix }
    }

    /// The style that colors text with the 256-color palette entry `n`.
    pub fn fixed(n: u8) -> (s: Style)
        ensures
            s@.prefix == fixed_prefix(n),
            s@.suffix == reset_suffix(),
    {
        Style { prefix: ansi_fixed_color_prefix(n), suffix: ansi_fixed_color_suffix(n) }
    }

    /// `text` wrapped in this style's markers.
    pub fn paint(&self, text: &[u8]) -> (r: Vec<u8>)
        ensures
            r@ == paint_spec(self@, text@),
    {
        let mut r: Vec<u8> = Vec::new();
        crate::segment::push_bytes(&mut r, self.prefix.as_slice(), 0, self.prefix.len());
        crate::segment::push_bytes(&mut r, text, 0, text.len());
        crate::segment::push_bytes(&mut r, self.suffix.as_slice(), 0, self.suffix.len());
        proof {
            assert(r@ =~= self@.prefix + text@ + self@.suffix);
        }
        r
    }
}

} // verus!
