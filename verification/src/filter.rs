//! The filter evaluator: decides, from a file's extension and the two
//! configured lists, whether the file takes part in the run.

use vstd::prelude::*;
use crate::config::SortConfig;
use crate::text::{normalize_extension, normalize_spec, views_of, contains_token};

verus! {

/// Whether a file with normalized extension `e` is processed under an
/// allow-list `only` and a deny-list `exclude`. A non-empty allow-list
/// takes precedence and the deny-list is then ignored entirely.
pub open spec fn should_process_spec(e: Seq<char>, only: Seq<Seq<char>>, exclude: Seq<Seq<char>>) -> bool {
    if only.len() > 0 {
        only.contains(e)
    } else {
        !exclude.contains(e)
    }
}

/// Decide whether a file with the given (raw) extension is processed.
/// The candidate is normalized before the lists are consulted.
pub fn should_process(ext: &str, config: &SortConfig) -> (r: bool)
    ensures
        r == should_process_spec(
            normalize_spec(ext@),
            views_of(config.only_type@),
            views_of(config.exclude_type@),
        ),
{
    let e = normalize_extension(ext);
    if config.only_type.len() > 0 {
        contains_token(&config.only_type, &e)
    } else {
        !contains_token(&config.exclude_type, &e)
    }
}

/// With a non-empty allow-list, a file is processed exactly when its
/// extension is in that list, whatever the deny-list holds.
pub proof fn lemma_only_type_precedence(
    e: Seq<char>,
    only: Seq<Seq<char>>,
    exclude_a: Seq<Seq<char>>,
    exclude_b: Seq<Seq<char>>,
)
    requires
        only.len() > 0,
    ensures
        should_process_spec(e, only, exclude_a) == only.contains(e),
        should_process_spec(e, only, exclude_a) == should_process_spec(e, only, exclude_b),
{
}

/// With an empty allow-list, a file is processed exactly when its
/// extension is not in the deny-list.
pub proof fn lemma_exclude_governs(e: Seq<char>, only: Seq<Seq<char>>, exclude: Seq<Seq<char>>)
    requires
        only.len() == 0,
    ensures
        should_process_spec(e, only, exclude) == !exclude.contains(e),
{
}

} // verus!
