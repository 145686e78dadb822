use vstd::prelude::*;

use crate::text::{replace_char, replace_chars};

verus! {

/// The displayed form of a rendered number: its decimal point becomes a
/// decimal comma.
pub fn with_decimal_comma(rendered: &str) -> (shown: String)
    ensures
        shown@ == replace_char(rendered@, '.', ','),
{
    replace_chars(rendered, '.', ',')
}

/// The parsable form of a displayed number: its decimal comma becomes a
/// decimal point.
pub fn with_decimal_point(shown: &str) -> (rendered: String)
    ensures
        rendered@ == replace_char(shown@, ',', '.'),
{
    replace_chars(shown, ',', '.')
}

/// A rendered number without commas comes back unchanged from the display:
/// parsing what is shown reads the number that was rendered.
pub proof fn lemma_displayed_number_reads_back(rendered: Seq<char>)
    requires
        !rendered.contains(','),
    ensures
        replace_char(replace_char(rendered, '.', ','), ',', '.') == rendered,
{
    let back = replace_char(replace_char(rendered, '.', ','), ',', '.');
    assert forall|i: int| 0 <= i < rendered.len() implies back[i] == rendered[i] by {
        if rendered[i] == ',' {
            assert(rendered.contains(','));
        }
    }
    assert(back =~= rendered);
}

/// A displayed number without points is shown again unchanged after it
/// has been read.
pub proof fn lemma_read_number_displays_back(shown: Seq<char>)
    requires
        !shown.contains('.'),
    ensures
        replace_char(replace_char(shown, ',', '.'), '.', ',') == shown,
{
    let back = replace_char(replace_char(shown, ',', '.'), '.', ',');
    assert forall|i: int| 0 <= i < shown.len() implies back[i] == shown[i] by {
        if shown[i] == '.' {
            assert(shown.contains('.'));
        }
    }
    assert(back =~= shown);
}

} // verus!
