//! The immutable per-run configuration: source and target directories,
//! timestamp choice and format, name preservation, and the two
//! normalized extension lists.

use vstd::prelude::*;
use crate::text::{normalize_spec, parse_list_spec, parse_type_list, views_of,
    lemma_normalize_tokens_wf};

verus! {

/// Which filesystem timestamp drives classification.
#[derive(Clone, Copy, PartialEq, Eq, Structural, Debug)]
pub enum DateType {
    Created,
    Accessed,
    Modified,
}

/// Which timestamp a set of three choice flags selects: creation first,
/// then access, then modification, which is also the default when no
/// flag is set.
pub fn date_type_from_flags(created: bool, accessed: bool, modified: bool) -> (r: DateType)
    ensures
        r == (if created {
            DateType::Created
        } else if accessed {
            DateType::Accessed
        } else {
            DateType::Modified
        }),
{
    if created {
        DateType::Created
    } else if accessed {
        DateType::Accessed
    } else if modified {
        DateType::Modified
    } else {
        DateType::Modified
    }
}

/// The parameters of one sorting run, read-only once built.
pub struct SortConfig {
    /// Root directory to scan.
    pub source: String,
    /// Root directory that receives the sorted files.
    pub target: String,
    /// A strftime-like pattern rendering the chosen timestamp.
    pub date_format: String,
    /// Which timestamp drives classification.
    pub date_type: DateType,
    /// Append the original file name after the formatted timestamp.
    pub preserve_name: bool,
    /// Extensions to skip; ignored when `only_type` is non-empty.
    pub exclude_type: Vec<String>,
    /// When non-empty, only these extensions are processed.
    pub only_type: Vec<String>,
}

impl SortConfig {
    /// Both extension lists hold only non-empty tokens in normal form.
    pub open spec fn wf(self) -> bool {
        &&& forall|i: int|
            0 <= i < self.exclude_type@.len() ==> (#[trigger] self.exclude_type@[i]@).len() > 0
                && normalize_spec(self.exclude_type@[i]@) == self.exclude_type@[i]@
        &&& forall|i: int|
            0 <= i < self.only_type@.len() ==> (#[trigger] self.only_type@[i]@).len() > 0
                && normalize_spec(self.only_type@[i]@) == self.only_type@[i]@
    }

    /// Build a configuration, normalizing the two comma-separated
    /// extension lists.
    pub fn new(
        source: String,
        target: String,
        date_format: String,
        date_type: DateType,
        preserve_name: bool,
        exclude_raw: &str,
        only_raw: &str,
    ) -> (r: SortConfig)
        ensures
            r.wf(),
            r.source == source,
            r.target == target,
            r.date_format == date_format,
            r.date_type == date_type,
            r.preserve_name == preserve_name,
            views_of(r.exclude_type@) == parse_list_spec(exclude_raw@),
            views_of(r.only_type@) == parse_list_spec(only_raw@),
    {
        let exclude_type = parse_type_list(exclude_raw);
        let only_type = parse_type_list(only_raw);
        proof {
            lemma_normalize_tokens_wf(crate::text::split_commas(exclude_raw@));
            lemma_normalize_tokens_wf(crate::text::split_commas(only_raw@));
            assert(forall|i: int|
                0 <= i < exclude_type@.len() ==> views_of(exclude_type@)[i]
                    == (#[trigger] exclude_type@[i])@);
            assert(forall|i: int|
                0 <= i < only_type@.len() ==> views_of(only_type@)[i]
                    == (#[trigger] only_type@[i])@);
        }
        SortConfig { source, target, date_format, date_type, preserve_name, exclude_type, only_type }
    }
}

} // verus!
