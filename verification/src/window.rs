//! The kinds of taper that a frame can be multiplied with, and their names.

use vstd::prelude::*;
use vstd::string::StringExecFns;

verus! {

/// The kind of taper applied to a frame before it is transformed.
#[derive(Clone, Copy, PartialEq, Eq, PartialOrd, Ord, Debug, Hash, Structural)]
pub enum WindowType {
    Hanning,
    Hamming,
    Blackman,
    Nuttall,
    /// No taper: the frame is transformed as it is. Its name is `None`.
    Rectangular,
}

/// The lowercase form of a text, as `str::to_lowercase` gives it.
pub uninterp spec fn lowercase_of(text: Seq<char>) -> Seq<char>;

/// `str::to_lowercase`: the text with every character replaced by its
/// lowercase form, which depends on the text alone.
#[verifier::external_body]
fn lowercase(text: &str) -> (lower: String)
    ensures
        lower@ == lowercase_of(text@),
{
    text.to_lowercase()
}

/// The window type that a lowercase name stands for, if any.
pub open spec fn named(lower: Seq<char>) -> Option<WindowType> {
    if lower == "hanning"@ || lower == "hann"@ {
        Some(WindowType::Hanning)
    } else if lower == "hamming"@ {
        Some(WindowType::Hamming)
    } else if lower == "blackman"@ {
        Some(WindowType::Blackman)
    } else if lower == "nuttall"@ {
        Some(WindowType::Nuttall)
    } else if lower == "none"@ {
        Some(WindowType::Rectangular)
    } else {
        None
    }
}

/// What parsing gives for a lowercase name: the window type that it stands
/// for, or the message `no match`.
pub open spec fn parsed_as(lower: Seq<char>, parsed: Result<WindowType, &'static str>) -> bool {
    match named(lower) {
        Some(window_type) => parsed == Ok::<WindowType, &'static str>(window_type),
        None => parsed is Err && parsed->Err_0@ == "no match"@,
    }
}

impl WindowType {
    /// Every window type, in the order of their declaration.
    pub fn values() -> (all: [WindowType; 5])
        ensures
            all@ == seq![
                WindowType::Hanning,
                WindowType::Hamming,
                WindowType::Blackman,
                WindowType::Nuttall,
                WindowType::Rectangular,
            ],
    {
        let all = [
            WindowType::Hanning,
            WindowType::Hamming,
            WindowType::Blackman,
            WindowType::Nuttall,
            WindowType::Rectangular,
        ];
        assert(all@ =~= seq![
            WindowType::Hanning,
            WindowType::Hamming,
            WindowType::Blackman,
            WindowType::Nuttall,
            WindowType::Rectangular,
        ]);
        all
    }

    /// The name of the window type as text.
    pub open spec fn spec_name(self) -> Seq<char> {
        match self {
            WindowType::Hanning => "Hanning"@,
            WindowType::Hamming => "Hamming"@,
            WindowType::Blackman => "Blackman"@,
            WindowType::Nuttall => "Nuttall"@,
            WindowType::Rectangular => "None"@,
        }
    }

    /// The name of the window type as text.
    pub fn to_string(&self) -> (name: String)
        ensures
            name@ == self.spec_name(),
    {
        match self {
            WindowType::Hanning => String::from_str("Hanning"),
            WindowType::Hamming => String::from_str("Hamming"),
            WindowType::Blackman => String::from_str("Blackman"),
            WindowType::Nuttall => String::from_str("Nuttall"),
            WindowType::Rectangular => String::from_str("None"),
        }
    }

    /// The window type that a name in lowercase stands for: `hanning` or
    /// `hann`, `hamming`, `blackman`, `nuttall`, `none`. Any other text gives
    /// the message `no match`.
    pub fn from_lowercase(lower: &str) -> (parsed: Result<WindowType, &'static str>)
        ensures
            parsed_as(lower@, parsed),
    {
        let text = String::from_str(lower);
        if text == String::from_str("hanning") || text == String::from_str("hann") {
            Ok(WindowType::Hanning)
        } else if text == String::from_str("hamming") {
            Ok(WindowType::Hamming)
        } else if text == String::from_str("blackman") {
            Ok(WindowType::Blackman)
        } else if text == String::from_str("nuttall") {
            Ok(WindowType::Nuttall)
        } else if text == String::from_str("none") {
            Ok(WindowType::Rectangular)
        } else {
            Err("no match")
        }
    }

    /// The window type that a name stands for, whatever the case of its
    /// letters.
    pub fn from_str(s: &str) -> (parsed: Result<WindowType, &'static str>)
        ensures
            parsed_as(lowercase_of(s@), parsed),
    {
        let lower = lowercase(s);
        WindowType::from_lowercase(lower.as_str())
    }
}

/// Parsing by way of `str::parse`.
impl std::str::FromStr for WindowType {
    type Err = &'static str;

    /// The window type that a name stands for, whatever the case of its
    /// letters, or the message `no match`.
    fn from_str(s: &str) -> (parsed: Result<Self, Self::Err>)
        ensures
            parsed_as(lowercase_of(s@), parsed),
    {
        WindowType::from_str(s)
    }
}

} // verus!
