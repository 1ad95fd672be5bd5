//! Type Classifier: sniffs the leading bytes of a file for well-known
//! magic-byte patterns and assigns a coarse media-type category. Files
//! whose prefix matches no known media format — plain text, unknown
//! binaries, or prefixes too short to classify — fall in `Other`, as does
//! a file whose prefix could not be read at all.

use vstd::prelude::*;

verus! {

/// Coarse media-type category of a file, derived from its leading bytes.
#[derive(Clone, Copy, Debug, PartialEq, Eq, Structural)]
pub enum TypeCategory {
    Audio,
    Video,
    Document,
    Ebook,
    Font,
    Image,
    Other,
}

/// The category that magic-byte sniffing assigns to a prefix. The result
/// depends on the prefix bytes alone.
pub uninterp spec fn category_of(prefix: Seq<u8>) -> TypeCategory;

/// Relies on infer::get, which matches a buffer against a fixed table of
/// magic-byte matchers and reports the matcher type of the first hit; the
/// result is a function of the buffer bytes alone.
#[verifier::external_body]
fn sniff_category(prefix: &Vec<u8>) -> (c: TypeCategory)
    ensures
        c == category_of(prefix@),
{
    match infer::get(prefix.as_slice()) {
        Some(kind) => match kind.matcher_type() {
            infer::MatcherType::Audio => TypeCategory::Audio,
            infer::MatcherType::Video => TypeCategory::Video,
            infer::MatcherType::Doc => TypeCategory::Document,
            infer::MatcherType::Book => TypeCategory::Ebook,
            infer::MatcherType::Font => TypeCategory::Font,
            infer::MatcherType::Image => TypeCategory::Image,
            _ => TypeCategory::Other,
        },
        None => TypeCategory::Other,
    }
}

/// Category of a possibly unread prefix: a failed read classifies as
/// `Other`.
pub open spec fn spec_classify(prefix: Option<Seq<u8>>) -> TypeCategory {
    match prefix {
        Some(p) => category_of(p),
        None => TypeCategory::Other,
    }
}

/// Whether a category marks a file as a recognized media type, eligible
/// for deep inspection.
pub open spec fn is_recognized(c: TypeCategory) -> bool {
    c != TypeCategory::Other
}

/// Classifies a file by its leading bytes; `None` stands for a prefix
/// that could not be read and yields `Other`, not an error.
pub fn classify_prefix(prefix: &Option<Vec<u8>>) -> (c: TypeCategory)
    ensures
        c == spec_classify(prefix.deep_view()),
{
    match prefix {
        Some(p) => {
            proof {
                assert(p.deep_view() =~= p@);
            }
            sniff_category(p)
        },
        None => TypeCategory::Other,
    }
}

} // verus!
