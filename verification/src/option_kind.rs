use vstd::prelude::*;

use crate::text::same_text;

verus! {

/// The two kinds of European option that the pricer values.
#[derive(Debug, Clone, Copy, PartialEq, Eq, Structural)]
pub enum OptionType {
    Call,
    Put,
}

/// What `str::to_lowercase` gives for a string: the Unicode lowercase mapping
/// of its characters.
pub uninterp spec fn lowercase(s: Seq<char>) -> Seq<char>;

/// Calls `str::to_lowercase`. The contract claims only that the result is a fixed
/// function of the argument's characters, named `lowercase`; the Unicode case
/// tables behind it are not written out.
#[verifier::external_body]
fn to_lowercase(s: &str) -> (r: String)
    ensures
        r@ == lowercase(s@),
{
    s.to_lowercase()
}

/// The option kind that an already lower-cased name denotes, if any.
pub open spec fn kind_of_lowercase(lower: Seq<char>) -> Option<OptionType> {
    if lower == "call"@ {
        Some(OptionType::Call)
    } else if lower == "put"@ {
        Some(OptionType::Put)
    } else {
        None
    }
}

/// The message that refuses an unknown option kind, quoting the lower-cased name.
pub open spec fn unknown_kind_message(lower: Seq<char>) -> Seq<char> {
    "Nepoznat tip opcije: "@ + lower + " (dozvoljeno: call, put)"@
}

/// The result of reading an option kind whose lower-cased name is `lower`.
pub open spec fn kind_result(lower: Seq<char>) -> Result<OptionType, Seq<char>> {
    match kind_of_lowercase(lower) {
        Some(kind) => Ok(kind),
        None => Err(unknown_kind_message(lower)),
    }
}

impl OptionType {
    /// Reads an option kind from a name given in any letter case: `call` or `put`.
    pub fn from_str(s: &str) -> (r: Result<OptionType, String>)
        ensures
            lowercase(s@) == "call"@ ==> r == Ok::<OptionType, String>(OptionType::Call),
            lowercase(s@) == "put"@ ==> r == Ok::<OptionType, String>(OptionType::Put),
            lowercase(s@) != "call"@ && lowercase(s@) != "put"@ ==> r is Err,
            match r {
                Ok(kind) => kind_result(lowercase(s@)) == Ok::<OptionType, Seq<char>>(kind),
                Err(msg) => kind_result(lowercase(s@)) == Err::<OptionType, Seq<char>>(msg@),
            },
    {
        let lower = to_lowercase(s);
        OptionType::from_lowercase(lower.as_str())
    }

    /// Reads an option kind from a name that is already in lower case.
    pub fn from_lowercase(lower: &str) -> (r: Result<OptionType, String>)
        ensures
            lower@ == "call"@ ==> r == Ok::<OptionType, String>(OptionType::Call),
            lower@ == "put"@ ==> r == Ok::<OptionType, String>(OptionType::Put),
            lower@ != "call"@ && lower@ != "put"@ ==> r is Err,
            match r {
                Ok(kind) => kind_result(lower@) == Ok::<OptionType, Seq<char>>(kind),
                Err(msg) => kind_result(lower@) == Err::<OptionType, Seq<char>>(msg@),
            },
    {
        proof {
            reveal_strlit("call");
            reveal_strlit("put");
            assert("call"@.len() != "put"@.len());
        }
        if same_text(lower, "call") {
            Ok(OptionType::Call)
        } else if same_text(lower, "put") {
            Ok(OptionType::Put)
        } else {
            let mut msg = String::from_str("Nepoznat tip opcije: ");
            msg.append(lower);
            msg.append(" (dozvoljeno: call, put)");
            Err(msg)
        }
    }
}

} // verus!
