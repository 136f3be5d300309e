//! Building the greeting line: an optional name around fixed prose, shouted
//! or plain.

use vstd::prelude::*;
use vstd::string::StringExecFns;

verus! {

/// The uppercase folding applied to a shouted name.  What the standard
/// folding returns is a pure function of the characters alone, so it is
/// given a name rather than restated.
pub uninterp spec fn upper_of(s: Seq<char>) -> Seq<char>;

/// Relies on str::to_uppercase: the result depends on the characters alone.
#[verifier::external_body]
fn uppercase(s: &str) -> (r: String)
    ensures
        r@ == upper_of(s@),
{
    s.to_uppercase()
}

/// The greeting for `name`, or for the default addressee where none was
/// given: the name folded to upper case inside shouted prose, or kept as
/// typed inside plain prose.
pub open spec fn greeting_spec(name: Option<Seq<char>>, upper: bool) -> Seq<char> {
    let who = match name {
        Option::Some(n) => n,
        Option::None => "World"@,
    };
    if upper {
        "HELLO, "@ + upper_of(who) + "!"@
    } else {
        "Hello, "@ + who + "!"@
    }
}

/// Assemble the greeting line for `name`, shouted when `upper` is set.
pub fn build_greeting(name: Option<&str>, upper: bool) -> (g: String)
    ensures
        g@ == greeting_spec(
            match name {
                Option::Some(n) => Some(n@),
                Option::None => None,
            },
            upper,
        ),
{
    let who: &str = match name {
        Some(n) => n,
        None => "World",
    };
    if upper {
        let mut g = "HELLO, ".to_owned();
        let shouted = uppercase(who);
        g.append(shouted.as_str());
        g.append("!");
        g
    } else {
        let mut g = "Hello, ".to_owned();
        g.append(who);
        g.append("!");
        g
    }
}

} // verus!
