//! Combining the stored texts of an item or asset: extracted (OCR) text first,
//! then transcriptions, separated by single spaces.

use vstd::prelude::*;
use crate::lines::{join_lines, join_strings, string_views};
use crate::search::{contains_seq, contains_str};

verus! {

/// An item's text: all extraction texts, then all transcription texts, joined
/// by single spaces.
pub open spec fn item_text(extractions: Seq<Seq<char>>, transcriptions: Seq<Seq<char>>) -> Seq<char> {
    join_lines(extractions + transcriptions, " "@)
}

/// Whether a storage error says that a table is missing.
pub open spec fn missing_table(e: Seq<char>) -> bool {
    contains_seq(e, "no such table"@)
}

/// Combines an item's texts. A transcription lookup that failed because the
/// table does not exist counts as no transcriptions; any other failure is returned.
pub fn combine_item_texts(extractions: Vec<String>, transcriptions: Result<Vec<String>, String>) -> (r:
    Result<String, String>)
    ensures
        match transcriptions {
            Ok(t) => r matches Ok(s) && s@ == item_text(string_views(extractions@), string_views(t@)),
            Err(e) => if missing_table(e@) {
                r matches Ok(s) && s@ == item_text(string_views(extractions@), Seq::empty())
            } else {
                r == Err::<String, String>(e)
            },
        },
{
    let mut all = extractions;
    let ghost ev = string_views(all@);
    let mut more: Vec<String> = match transcriptions {
        Ok(t) => t,
        Err(e) => {
            if contains_str(e.as_str(), "no such table") {
                Vec::new()
            } else {
                return Err(e);
            }
        },
    };
    let ghost mv = string_views(more@);
    all.append(&mut more);
    assert(string_views(all@) =~= ev + mv);
    proof {
        if mv.len() == 0 {
            assert(ev + mv =~= ev + Seq::<Seq<char>>::empty());
        }
    }
    Ok(join_strings(&all, " "))
}

/// An asset's text: its extraction text and its transcription text, the
/// non-empty ones joined by a single space.
pub open spec fn asset_text(extraction: Seq<char>, transcription: Seq<char>) -> Seq<char> {
    if extraction.len() > 0 && transcription.len() > 0 {
        extraction + " "@ + transcription
    } else if extraction.len() > 0 {
        extraction
    } else {
        transcription
    }
}

/// Combines an asset's extraction and transcription texts.
pub fn combine_asset_texts(extraction: &str, transcription: &str) -> (r: String)
    ensures
        r@ == asset_text(extraction@, transcription@),
{
    let a = extraction.unicode_len();
    let b = transcription.unicode_len();
    if a > 0 && b > 0 {
        let mut s = String::from_str(extraction);
        s.append(" ");
        s.append(transcription);
        s
    } else if a > 0 {
        String::from_str(extraction)
    } else {
        String::from_str(transcription)
    }
}

} // verus!
