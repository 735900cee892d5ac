//! From a selected item to the text that is shown for it.

use vstd::prelude::*;
use crate::markup::{pretty_print_xml, reformatted, FormatError};
use crate::segments::{entry_name, without_leading_separators};

verus! {

/// The name of the entry that a selection stands for. A selection lists the
/// identifiers from the top of the hierarchy down to the selected item; the
/// last of them is the full path of the selected item.
pub open spec fn selected_entry_text(selected: Seq<String>) -> Option<Seq<char>> {
    if selected.len() == 0 {
        None
    } else {
        Some(without_leading_separators(selected.last()@))
    }
}

/// The name of the entry to fetch for a selection, if anything is selected.
pub fn selected_entry<'a>(selected: &'a [String]) -> (name: Option<&'a str>)
    ensures
        match name {
            Some(text) => selected_entry_text(selected@) == Some(text@),
            None => selected_entry_text(selected@) is None,
        },
{
    let count = selected.len();
    if count == 0 {
        None
    } else {
        Some(entry_name(selected[count - 1].as_str()))
    }
}

/// What becomes of the shown text once the archive was asked for an entry:
/// nothing where the entry could not be had, else the entry's text
/// re-indented, or the reason why that text is no markup.
pub open spec fn update_for(retrieved: Option<Seq<char>>) -> Result<
    Option<Seq<char>>,
    FormatError,
> {
    match retrieved {
        None => Ok(None),
        Some(raw) => match reformatted(raw) {
            Ok(text) => Ok(Some(text)),
            Err(error) => Err(error),
        },
    }
}

/// The text of an update.
pub open spec fn update_text(update: Result<Option<String>, FormatError>) -> Result<
    Option<Seq<char>>,
    FormatError,
> {
    match update {
        Ok(None) => Ok(None),
        Ok(Some(text)) => Ok(Some(text@)),
        Err(error) => Err(error),
    }
}

/// The text of what was retrieved.
pub open spec fn retrieved_text(retrieved: Option<&str>) -> Option<Seq<char>> {
    match retrieved {
        None => None,
        Some(raw) => Some(raw@),
    }
}

/// Decides what to show once the archive was asked for the selected entry:
/// `Ok(None)`, which leaves the shown text as it is, where the entry could
/// not be had; else the re-indented text of the entry.
pub fn display_update(retrieved: Option<&str>) -> (update: Result<Option<String>, FormatError>)
    ensures
        update_text(update) == update_for(retrieved_text(retrieved)),
{
    match retrieved {
        None => Ok(None),
        Some(raw) => match pretty_print_xml(raw) {
            Ok(text) => Ok(Some(text)),
            Err(error) => Err(error),
        },
    }
}

} // verus!
