//! A collection of byte (`u8`) utility methods.
use vstd::prelude::*;

use crate::ascii::{isalpha, isdigit, isdigit_hex, spec_is_alpha, spec_is_digit, spec_is_hex_digit};

verus! {

/// Classification of a value as an ASCII letter or digit.
pub trait Ascii: Clone {
    /// True if the value stands for an ASCII letter.
    spec fn alpha_spec(&self) -> bool;

    /// True if the value stands for an ASCII decimal digit.
    spec fn digit_spec(&self) -> bool;

    /// True if the value stands for an ASCII hexadecimal digit.
    spec fn hex_digit_spec(&self) -> bool;

    /// Returns true if this value is an alphabetic code point, and false if not.
    fn is_alpha(self) -> (r: bool)
        ensures
            r == self.alpha_spec(),
    ;

    /// Checks if the value is a digit in a radix of ten.
    fn is_digit(self) -> (r: bool)
        ensures
            r == self.digit_spec(),
    ;

    /// Checks if the value is a digit in a radix of hexadecimal.
    fn is_hex_digit(self) -> (r: bool)
        ensures
            r == self.hex_digit_spec(),
    ;
}

impl Ascii for u8 {
    open spec fn alpha_spec(&self) -> bool {
        spec_is_alpha(*self)
    }

    open spec fn digit_spec(&self) -> bool {
        spec_is_digit(*self)
    }

    open spec fn hex_digit_spec(&self) -> bool {
        spec_is_hex_digit(*self)
    }

    fn is_alpha(self) -> (r: bool) {
        isalpha(self)
    }

    fn is_digit(self) -> (r: bool) {
        isdigit(self)
    }

    fn is_hex_digit(self) -> (r: bool) {
        isdigit_hex(self)
    }
}

} // verus!
