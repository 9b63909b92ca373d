use vstd::prelude::*;

verus! {

/// The characters with the Unicode property White_Space, as listed for `char::is_whitespace`.
pub open spec fn white_space(c: char) -> bool {
    ||| c == '\t' || c == '\n' || c == '\u{0B}' || c == '\u{0C}' || c == '\r' || c == ' '
    ||| c == '\u{85}' || c == '\u{A0}' || c == '\u{1680}'
    ||| ('\u{2000}' as u32) <= (c as u32) <= ('\u{200A}' as u32)
    ||| c == '\u{2028}' || c == '\u{2029}' || c == '\u{202F}' || c == '\u{205F}' || c == '\u{3000}'
}

/// `s` is empty or holds only whitespace.
pub open spec fn blank(s: Seq<char>) -> bool {
    forall|i: int| 0 <= i < s.len() ==> white_space(#[trigger] s[i])
}

/// Relies on str::trim: it removes leading and trailing White_Space characters, so
/// nothing is left exactly when every character is whitespace.
#[verifier::external_body]
fn trim(s: &str) -> (r: &str)
    ensures
        r@.len() == 0 <==> blank(s@),
{
    s.trim()
}

/// Whether `s` is empty or only whitespace.
pub fn is_blank(s: &String) -> (r: bool)
    ensures
        r == blank(s@),
{
    trim(s.as_str()).is_empty()
}

} // verus!
