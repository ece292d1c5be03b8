//! The scanner: a model of the single pass over a style sheet.
//!
//! The scanner reads one character at a time. It keeps the depth to which
//! braces are nested, the text seen outside any block since the last rule
//! was opened, and the three counts.

use vstd::prelude::*;
use crate::selectors::{lemma_selector_count_bounded, selector_count};

verus! {

/// The three counts of an analysis, as mathematical integers.
pub struct Counts {
    /// Selectors in the selector lists of the rules opened.
    pub selectors: nat,
    /// Blocks opened outside any block.
    pub rules: nat,
    /// Semicolons directly inside such a block.
    pub properties: nat,
}

impl Counts {
    /// No selector, no rule, no property.
    pub open spec fn zero() -> Counts {
        Counts { selectors: 0, rules: 0, properties: 0 }
    }

    /// Whether no count of `self` exceeds its counterpart in `other`.
    pub open spec fn le(self, other: Counts) -> bool {
        &&& self.selectors <= other.selectors
        &&& self.rules <= other.rules
        &&& self.properties <= other.properties
    }

    /// Whether each count fits in 32 bits.
    pub open spec fn fits_u32(self) -> bool {
        &&& self.selectors <= u32::MAX
        &&& self.rules <= u32::MAX
        &&& self.properties <= u32::MAX
    }
}

/// The state of the scanner between two characters.
pub struct Scanner {
    /// How many blocks are open. Zero outside any block.
    pub depth: nat,
    /// The text seen outside any block since the last rule was opened,
    /// braces left out.
    pub pending: Seq<char>,
    /// What has been counted so far.
    pub counts: Counts,
}

impl Scanner {
    /// The scanner before the first character.
    pub open spec fn start() -> Scanner {
        Scanner { depth: 0, pending: Seq::empty(), counts: Counts::zero() }
    }

    /// Whether the scanner is inside a block.
    pub open spec fn in_block(self) -> bool {
        self.depth > 0
    }

    /// The scanner after it has read `c`.
    ///
    /// An opening brace outside any block opens a rule: the rule is
    /// counted, the selectors of the pending text are counted, and the
    /// pending text is cleared. Any opening brace goes one block deeper. A
    /// closing brace leaves one block, if one is open. A semicolon directly
    /// inside a rule's block counts a property. Any other character outside
    /// any block joins the pending text, and one inside a block is skipped.
    pub open spec fn step(self, c: char) -> Scanner {
        if c == '{' {
            if self.depth == 0 {
                Scanner {
                    depth: 1,
                    pending: Seq::empty(),
                    counts: Counts {
                        selectors: self.counts.selectors + selector_count(self.pending),
                        rules: self.counts.rules + 1,
                        properties: self.counts.properties,
                    },
                }
            } else {
                Scanner { depth: self.depth + 1, ..self }
            }
        } else if c == '}' {
            Scanner {
                depth: if self.depth > 0 {
                    (self.depth - 1) as nat
                } else {
                    0
                },
                ..self
            }
        } else if c == ';' && self.depth == 1 {
            Scanner {
                counts: Counts { properties: self.counts.properties + 1, ..self.counts },
                ..self
            }
        } else if self.depth == 0 {
            Scanner { pending: self.pending.push(c), ..self }
        } else {
            self
        }
    }

    /// The scanner after it has read all of `text`, from the start.
    pub open spec fn after(text: Seq<char>) -> Scanner
        decreases text.len(),
    {
        if text.len() == 0 {
            Scanner::start()
        } else {
            Scanner::after(text.drop_last()).step(text.last())
        }
    }
}

/// The counts that the scanner has reached at the end of `text`. Pending
/// text that no opening brace follows is not counted.
pub open spec fn analysis_of(text: Seq<char>) -> Counts {
    Scanner::after(text).counts
}

/// How often `c` occurs in `text`.
pub open spec fn occurrences(text: Seq<char>, c: char) -> nat {
    text.to_multiset().count(c)
}

/// The depth at which the scanner reads the character at position `i` of
/// `text`.
pub open spec fn depth_at(text: Seq<char>, i: int) -> nat {
    Scanner::after(text.take(i)).depth
}

/// The positions of `text` at which a rule opens: those of the opening
/// braces read outside any block.
pub open spec fn rule_openings(text: Seq<char>) -> Set<int> {
    Set::new(|i: int| 0 <= i < text.len() && text[i] == '{' && depth_at(text, i) == 0)
}

/// The positions of `text` at which a property ends: those of the
/// semicolons read directly inside a rule's block.
pub open spec fn property_ends(text: Seq<char>) -> Set<int> {
    Set::new(|i: int| 0 <= i < text.len() && text[i] == ';' && depth_at(text, i) == 1)
}

/// Reading one more character is one step of the scanner.
pub proof fn lemma_after_push(text: Seq<char>, c: char)
    ensures
        Scanner::after(text.push(c)) == Scanner::after(text).step(c),
{
    assert(text.push(c).drop_last() =~= text);
}

/// No step lowers a count.
pub proof fn lemma_step_grows(s: Scanner, c: char)
    ensures
        s.counts.le(s.step(c).counts),
{
}

/// The counts only grow during a scan: those reached after the first `n`
/// characters of `text` do not exceed those reached at its end.
pub proof fn lemma_counts_grow(text: Seq<char>, n: int)
    requires
        0 <= n <= text.len(),
    ensures
        analysis_of(text.take(n)).le(analysis_of(text)),
    decreases text.len() - n,
{
    if n == text.len() {
        assert(text.take(n) =~= text);
    } else {
        lemma_counts_grow(text, n + 1);
        assert(text.take(n + 1) =~= text.take(n).push(text[n]));
        lemma_after_push(text.take(n), text[n]);
    }
}

/// What holds of the scanner after any text: the pending text is empty
/// inside a block, and the depth, each count, and the selectors counted
/// together with the pending text, stay within the number of characters
/// read.
pub proof fn lemma_scanner_bounded(text: Seq<char>)
    ensures
        Scanner::after(text).in_block() ==> Scanner::after(text).pending.len() == 0,
        Scanner::after(text).depth <= text.len(),
        Scanner::after(text).counts.selectors + Scanner::after(text).pending.len() <= text.len(),
        Scanner::after(text).counts.rules <= text.len(),
        Scanner::after(text).counts.properties <= text.len(),
    decreases text.len(),
{
    if text.len() > 0 {
        lemma_scanner_bounded(text.drop_last());
        lemma_selector_count_bounded(Scanner::after(text.drop_last()).pending);
    }
}

/// A text of at most `u32::MAX` characters has counts that fit in 32 bits.
pub proof fn lemma_short_text_fits(text: Seq<char>)
    requires
        text.len() <= u32::MAX,
    ensures
        analysis_of(text).fits_u32(),
{
    lemma_scanner_bounded(text);
}

/// The rules counted are the opening braces read outside any block, and
/// the properties counted are the semicolons read at depth one.
pub proof fn lemma_counts_are_positions(text: Seq<char>)
    ensures
        rule_openings(text).finite(),
        property_ends(text).finite(),
        analysis_of(text).rules == rule_openings(text).len(),
        analysis_of(text).properties == property_ends(text).len(),
    decreases text.len(),
{
    if text.len() == 0 {
        assert(rule_openings(text) =~= Set::<int>::empty());
        assert(property_ends(text) =~= Set::<int>::empty());
    } else {
        let before = text.drop_last();
        let c = text.last();
        let n = before.len() as int;
        lemma_counts_are_positions(before);
        assert forall|i: int| 0 <= i < n implies depth_at(text, i) == depth_at(before, i) by {
            assert(text.take(i) =~= before.take(i));
        }
        let depth = Scanner::after(before).depth;
        if c == '{' && depth == 0 {
            assert(rule_openings(text) =~= rule_openings(before).insert(n));
        } else {
            assert(rule_openings(text) =~= rule_openings(before));
        }
        if c == ';' && depth == 1 {
            assert(property_ends(text) =~= property_ends(before).insert(n));
        } else {
            assert(property_ends(text) =~= property_ends(before));
        }
    }
}

/// One more character is one more occurrence of itself, and of no other.
pub proof fn lemma_occurrences_push(text: Seq<char>, x: char, c: char)
    ensures
        occurrences(text.push(x), c) == occurrences(text, c) + (if x == c {
            1nat
        } else {
            0nat
        }),
{
    vstd::seq_lib::to_multiset_build(text, x);
}

/// There are no more rules than opening braces in the text, and no more
/// properties than semicolons.
pub proof fn lemma_counts_within_occurrences(text: Seq<char>)
    ensures
        analysis_of(text).rules <= occurrences(text, '{'),
        analysis_of(text).properties <= occurrences(text, ';'),
    decreases text.len(),
{
    if text.len() > 0 {
        let before = text.drop_last();
        let c = text.last();
        lemma_counts_within_occurrences(before);
        assert(before.push(c) =~= text);
        lemma_occurrences_push(before, c, '{');
        lemma_occurrences_push(before, c, ';');
    }
}

} // verus!
