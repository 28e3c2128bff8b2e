//! Currency codes.

use crate::text;
use vstd::prelude::*;

verus! {

/// A currency, known by its code in capital letters.
#[derive(Debug, PartialEq, Eq)]
pub struct Currency {
    pub code: String,
}

impl View for Currency {
    type V = Seq<char>;

    open spec fn view(&self) -> Seq<char> {
        self.code@
    }
}

impl Clone for Currency {
    fn clone(&self) -> (r: Self)
        ensures
            r@ == self@,
    {
        Currency { code: self.code.clone() }
    }
}

/// The code that a written currency stands for.
pub open spec fn normal_code(written: Seq<char>) -> Seq<char> {
    text::uppered(text::trimmed(written))
}

/// The code of the US dollar.
pub open spec fn usd_code() -> Seq<char> {
    "USD"@
}

impl Currency {
    /// The currency that `written` names, whatever its case.
    pub fn new(written: &str) -> (r: Currency)
        ensures
            r@ == normal_code(written@),
    {
        Currency { code: text::to_upper(text::trim(written)) }
    }

    pub fn usd() -> (r: Currency)
        ensures
            r@ == usd_code(),
    {
        Currency { code: text::owned("USD") }
    }

    pub fn as_str(&self) -> (r: &str)
        ensures
            r@ == self@,
    {
        self.code.as_str()
    }

    pub fn is_usd(&self) -> (r: bool)
        ensures
            r == (self@ == usd_code()),
    {
        text::same(self.code.as_str(), "USD")
    }

    pub fn is(&self, other: &Currency) -> (r: bool)
        ensures
            r == (self@ == other@),
    {
        text::same(self.code.as_str(), other.code.as_str())
    }
}

/// A code is what was written, without the white space round it and in capital
/// letters: the case in which it was written does not matter.
pub proof fn code_is_in_capital_letters(written: Seq<char>, i: int)
    requires
        0 <= i < text::trimmed(written).len(),
    ensures
        normal_code(written).len() == text::trimmed(written).len(),
        !('a' <= normal_code(written)[i] && normal_code(written)[i] <= 'z'),
        !('a' <= text::trimmed(written)[i] && text::trimmed(written)[i] <= 'z') ==> normal_code(
            written,
        )[i] == text::trimmed(written)[i],
        'a' <= text::trimmed(written)[i] && text::trimmed(written)[i] <= 'z' ==> normal_code(
            written,
        )[i] as u32 + 32 == text::trimmed(written)[i] as u32,
{
    text::case_changes_letters_only(text::trimmed(written), i);
}

/// The dollar's code is USD.
pub proof fn dollar_is_usd()
    ensures
        usd_code() == seq!['U', 'S', 'D'],
{
    reveal_strlit("USD");
}

} // verus!
