//! Display names taken from page titles.

use vstd::prelude::*;
use crate::trusted::{ends_with, strip_suffix, trim, trimmed};

verus! {

/// `s` without its suffix `p`, when it has it.
pub open spec fn without_suffix(s: Seq<char>, p: Seq<char>) -> Seq<char> {
    s.subrange(0, s.len() - p.len())
}

/// The page title with the first of ` - name`, ` | name`, ` — name` that ends
/// it removed once, then trimmed of surrounding whitespace.
pub open spec fn spec_clean_page_title(title: Seq<char>, name: Seq<char>) -> Seq<char> {
    let dash = " - "@ + name;
    let bar = " | "@ + name;
    let em_dash = " — "@ + name;
    let stripped = if ends_with(title, dash) {
        without_suffix(title, dash)
    } else if ends_with(title, bar) {
        without_suffix(title, bar)
    } else if ends_with(title, em_dash) {
        without_suffix(title, em_dash)
    } else {
        title
    };
    trimmed(stripped)
}

fn suffix_of(separator: &str, name: &str) -> (r: String)
    ensures
        r@ == separator@ + name@,
{
    let mut r = separator.to_owned();
    r.append(name);
    r
}

/// Strips a trailing separator and source name from a page title.
pub fn clean_page_title(title: &str, source_name: &str) -> (r: String)
    ensures
        r@ == spec_clean_page_title(title@, source_name@),
{
    let dash = suffix_of(" - ", source_name);
    let bar = suffix_of(" | ", source_name);
    let em_dash = suffix_of(" — ", source_name);
    let stripped = match strip_suffix(title, dash.as_str()) {
        Some(s) => s,
        None => match strip_suffix(title, bar.as_str()) {
            Some(s) => s,
            None => match strip_suffix(title, em_dash.as_str()) {
                Some(s) => s,
                None => title,
            },
        },
    };
    trim(stripped).to_owned()
}

} // verus!
