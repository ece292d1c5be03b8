//! The analysis of a style sheet: its three counts.

use vstd::prelude::*;
use vstd::utf8::encode_utf8;
use crate::scan::{
    analysis_of, lemma_after_push, lemma_counts_within_occurrences, lemma_scanner_bounded,
    occurrences, Counts, Scanner,
};
use crate::selectors::count_selectors;

verus! {

/// What an analysis has counted in a style sheet.
#[derive(Debug, Clone)]
pub struct CssAnalysis {
    /// Number of selectors found.
    pub selector_count: u32,
    /// Number of rules (blocks opened outside any block) found.
    pub rule_count: u32,
    /// Number of properties found.
    pub property_count: u32,
}

impl View for CssAnalysis {
    type V = Counts;

    open spec fn view(&self) -> Counts {
        Counts {
            selectors: self.selector_count as nat,
            rules: self.rule_count as nat,
            properties: self.property_count as nat,
        }
    }
}

impl Default for CssAnalysis {
    /// The analysis of the empty style sheet: every count is zero.
    fn default() -> (analysis: CssAnalysis)
        ensures
            analysis@ == Counts::zero(),
    {
        CssAnalysis { selector_count: 0, rule_count: 0, property_count: 0 }
    }
}

/// A text has no more characters than its UTF-8 encoding has bytes.
pub proof fn lemma_chars_within_bytes(chars: Seq<char>)
    ensures
        chars.len() <= encode_utf8(chars).len(),
    decreases chars.len(),
{
    if chars.len() > 0 {
        lemma_chars_within_bytes(chars.drop_first());
    }
}

/// The text determines its analysis: whatever two calls of the analyzer
/// return for the same text is equal, field by field.
pub proof fn lemma_analysis_determined(first: CssAnalysis, second: CssAnalysis, text: Seq<char>)
    requires
        first@ == analysis_of(text),
        second@ == analysis_of(text),
    ensures
        first == second,
{
}

/// The counts of a scan in machine words, before they are narrowed to the
/// fields of a [`CssAnalysis`].
struct Tally {
    selectors: usize,
    rules: usize,
    properties: usize,
}

impl Tally {
    spec fn counts(self) -> Counts {
        Counts {
            selectors: self.selectors as nat,
            rules: self.rules as nat,
            properties: self.properties as nat,
        }
    }

    /// Whether each count fits in 32 bits.
    fn fits_u32(&self) -> (fits: bool)
        ensures
            fits == self.counts().fits_u32(),
    {
        self.selectors <= 0xFFFF_FFFF && self.rules <= 0xFFFF_FFFF && self.properties
            <= 0xFFFF_FFFF
    }

    /// The counts as an analysis.
    fn narrow(&self) -> (analysis: CssAnalysis)
        requires
            self.counts().fits_u32(),
        ensures
            analysis@ == self.counts(),
    {
        CssAnalysis {
            selector_count: self.selectors as u32,
            rule_count: self.rules as u32,
            property_count: self.properties as u32,
        }
    }
}

/// Reads `input` once, character by character, as the scanner does, and
/// returns the counts reached at its end.
///
/// No count can leave the range of `usize`: none exceeds the number of
/// characters, and a text has no more characters than bytes.
fn scan(input: &str) -> (tally: Tally)
    ensures
        tally.counts() == analysis_of(input@),
{
    let mut tally = Tally { selectors: 0, rules: 0, properties: 0 };
    let mut depth: usize = 0;
    let mut pending: Vec<char> = Vec::new();
    let bytes = input.as_bytes();
    let chars = input.chars();
    proof {
        // The bytes are in memory, so their number fits in `usize`, and so
        // does the number of characters.
        assert(bytes@.len() == bytes.len());
        lemma_chars_within_bytes(input@);
    }
    for c in it: chars
        invariant
            it.seq() == input@,
            input@.len() <= usize::MAX,
            depth == Scanner::after(input@.take(it.index())).depth,
            pending@ == Scanner::after(input@.take(it.index())).pending,
            tally.counts() == Scanner::after(input@.take(it.index())).counts,
    {
        proof {
            let seen = input@.take(it.index());
            assert(input@.take(it.index() + 1) =~= seen.push(c));
            lemma_after_push(seen, c);
            lemma_scanner_bounded(input@.take(it.index() + 1));
        }
        if c == '{' {
            if depth == 0 {
                tally.rules += 1;
                tally.selectors += count_selectors(pending.as_slice());
                pending.clear();
            }
            depth += 1;
        } else if c == '}' {
            if depth > 0 {
                depth -= 1;
            }
        } else if c == ';' && depth == 1 {
            tally.properties += 1;
        } else if depth == 0 {
            pending.push(c);
        }
    }
    assert(input@.take(input@.len() as int) =~= input@);
    tally
}

/// Analyzes the style sheet `input` and returns its counts: those that the
/// scanner has reached at the end of the text.
///
/// The fields of the result hold 32 bits each, so the counts of `input`
/// must fit in them. Those of a text of up to `u32::MAX` characters always
/// do, by [`crate::scan::lemma_short_text_fits`]; [`try_analyze_css`] takes any
/// text.
pub fn analyze_css(input: &str) -> (analysis: CssAnalysis)
    requires
        analysis_of(input@).fits_u32(),
    ensures
        analysis@ == analysis_of(input@),
        analysis.rule_count <= occurrences(input@, '{'),
        analysis.property_count <= occurrences(input@, ';'),
{
    proof {
        lemma_counts_within_occurrences(input@);
    }
    scan(input).narrow()
}

/// Analyzes the style sheet `input`, whatever it holds, and returns its
/// counts unless one of them does not fit in 32 bits.
pub fn try_analyze_css(input: &str) -> (result: Option<CssAnalysis>)
    ensures
        result is Some <==> analysis_of(input@).fits_u32(),
        result matches Some(analysis) ==> {
            &&& analysis@ == analysis_of(input@)
            &&& analysis.rule_count <= occurrences(input@, '{')
            &&& analysis.property_count <= occurrences(input@, ';')
        },
{
    proof {
        lemma_counts_within_occurrences(input@);
    }
    let tally = scan(input);
    if tally.fits_u32() {
        Some(tally.narrow())
    } else {
        None
    }
}

} // verus!
