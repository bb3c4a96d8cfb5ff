//! The scanners' decisions: parsing what package tools print, choosing which
//! entries to report and how. Every scanner is read-only.

pub mod apps;
pub mod junk;
pub mod large_files;
pub mod monitor;
pub mod packages;

use vstd::prelude::*;
use crate::numbers::{parse_scaled, scaled_parse};
use crate::text::{
    ascii_lower, chars_of, is_ascii_text, lemma_ascii_replace, lemma_ascii_trim, lemma_ascii_words,
    lowercase, lowercase_chars, replace_char, replace_char_chars, split_words, starts_with,
    starts_with_chars, trim, trim_chars, views, words,
};

verus! {

/// The multiplier of a lower-cased unit word: `kb`/`kib…` is 1024,
/// `mb`/`mib…` is 1024², `gb`/`gib…` is 1024³, anything else (or none) is 1.
pub open spec fn human_unit_multiplier(unit: Option<Seq<char>>) -> nat {
    match unit {
        Some(u) => if starts_with(u, seq!['k', 'b']) || starts_with(u, seq!['k', 'i', 'b']) {
            1024
        } else if starts_with(u, seq!['m', 'b']) || starts_with(u, seq!['m', 'i', 'b']) {
            1048576
        } else if starts_with(u, seq!['g', 'b']) || starts_with(u, seq!['g', 'i', 'b']) {
            1073741824
        } else {
            1
        },
        None => 1,
    }
}

/// The words of a human size text: trimmed, a decimal comma read as a point.
pub open spec fn human_words(s: Seq<char>) -> Seq<Seq<char>> {
    words(replace_char(trim(s), ',', '.'))
}

/// The size the words give: the first word times the multiplier of the
/// (lower-cased) unit, 0 when there is no word or it is not a number.
pub open spec fn size_of_words(w: Seq<Seq<char>>, unit: Option<Seq<char>>) -> u64 {
    if w.len() == 0 {
        0
    } else {
        match scaled_parse(w[0], human_unit_multiplier(unit)) {
            Some(v) => v,
            None => 0,
        }
    }
}

/// A human size such as "1.2 MB", "512 kB" or "3,4 GB" (a localized decimal
/// comma) in bytes; 0 when the first word is not a number.
pub open spec fn human_size_bytes(s: Seq<char>) -> u64 {
    let w = human_words(s);
    size_of_words(w, if w.len() > 1 { Some(lowercase(w[1])) } else { None })
}

/// The same for ASCII text, where lower-casing is ASCII lower-casing.
pub open spec fn human_size_bytes_ascii(s: Seq<char>) -> u64 {
    let w = human_words(s);
    size_of_words(w, if w.len() > 1 { Some(ascii_lower(w[1])) } else { None })
}

/// The multiplier of a unit word that is already lower-cased.
pub fn unit_multiplier(u: &Vec<char>) -> (m: u64)
    ensures
        m == human_unit_multiplier(Some(u@)),
{
    let kb = vec!['k', 'b'];
    let kib = vec!['k', 'i', 'b'];
    let mb = vec!['m', 'b'];
    let mib = vec!['m', 'i', 'b'];
    let gb = vec!['g', 'b'];
    let gib = vec!['g', 'i', 'b'];
    assert(kb@ =~= seq!['k', 'b'] && kib@ =~= seq!['k', 'i', 'b']);
    assert(mb@ =~= seq!['m', 'b'] && mib@ =~= seq!['m', 'i', 'b']);
    assert(gb@ =~= seq!['g', 'b'] && gib@ =~= seq!['g', 'i', 'b']);
    if starts_with_chars(u, &kb) || starts_with_chars(u, &kib) {
        1024
    } else if starts_with_chars(u, &mb) || starts_with_chars(u, &mib) {
        1048576
    } else if starts_with_chars(u, &gb) || starts_with_chars(u, &gib) {
        1073741824
    } else {
        1
    }
}

/// Parse a human size string such as "1.2 MB", "512 kB", "3,4 GB" (flatpak
/// localizes the decimal separator) into bytes. Best-effort: 0 when the text
/// does not start with a number.
pub fn packages_size_from_human(s: &str) -> (n: u64)
    ensures
        n == human_size_bytes(s@),
        is_ascii_text(s@) ==> n == human_size_bytes_ascii(s@),
{
    proof {
        if is_ascii_text(s@) {
            lemma_ascii_trim(s@);
            lemma_ascii_replace(trim(s@), ',', '.');
            lemma_ascii_words(replace_char(trim(s@), ',', '.'));
        }
    }
    let t = replace_char_chars(&trim_chars(&chars_of(s)), ',', '.');
    let w = split_words(&t);
    if w.len() == 0 {
        return 0;
    }
    assert(views(w@)[0] == w@[0]@);
    let mult = if w.len() > 1 {
        assert(views(w@)[1] == w@[1]@);
        unit_multiplier(&lowercase_chars(&w[1]))
    } else {
        1
    };
    match parse_scaled(&w[0], mult) {
        Some(v) => v,
        None => 0,
    }
}

} // verus!
