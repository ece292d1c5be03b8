//! Selector lists: the text in front of a rule's opening brace.
//!
//! A selector list is cut at its commas, each piece is trimmed of the white
//! space around it, and the pieces that are left empty are dropped. What
//! remains are the selectors.

use vstd::prelude::*;
use crate::whitespace::{is_whitespace, white_space};

verus! {

/// The pieces that the commas of `text` separate, in order. There is one
/// piece more than there are commas; a piece may be empty.
pub open spec fn split_at_commas(text: Seq<char>) -> Seq<Seq<char>>
    decreases text.len(),
{
    if text.len() == 0 {
        seq![Seq::<char>::empty()]
    } else {
        let before = split_at_commas(text.drop_last());
        if text.last() == ',' {
            before.push(Seq::<char>::empty())
        } else {
            before.drop_last().push(before.last().push(text.last()))
        }
    }
}

/// `s` without the white space at its start.
pub open spec fn trim_start(s: Seq<char>) -> Seq<char>
    decreases s.len(),
{
    if s.len() > 0 && white_space(s.first()) {
        trim_start(s.drop_first())
    } else {
        s
    }
}

/// `s` without the white space at its end.
pub open spec fn trim_end(s: Seq<char>) -> Seq<char>
    decreases s.len(),
{
    if s.len() > 0 && white_space(s.last()) {
        trim_end(s.drop_last())
    } else {
        s
    }
}

/// `s` without the white space at either end.
pub open spec fn trim(s: Seq<char>) -> Seq<char> {
    trim_end(trim_start(s))
}

/// The trimmed forms of `pieces`, without those that are empty.
pub open spec fn trimmed_nonempty(pieces: Seq<Seq<char>>) -> Seq<Seq<char>> {
    pieces.map_values(|piece: Seq<char>| trim(piece)).filter(|piece: Seq<char>| piece.len() > 0)
}

/// The selectors of the selector list `text`.
pub open spec fn selectors(text: Seq<char>) -> Seq<Seq<char>> {
    trimmed_nonempty(split_at_commas(text))
}

/// The number of selectors in the selector list `text`.
pub open spec fn selector_count(text: Seq<char>) -> nat {
    selectors(text).len()
}

/// Whether `s` holds nothing but white space.
pub open spec fn blank(s: Seq<char>) -> bool {
    forall|i: int| 0 <= i < s.len() ==> white_space(#[trigger] s[i])
}

/// The piece of `text` that follows its last comma.
pub open spec fn last_piece(text: Seq<char>) -> Seq<char> {
    split_at_commas(text).last()
}

/// `pieces` put together again, with a comma between each two.
pub open spec fn join_with_commas(pieces: Seq<Seq<char>>) -> Seq<char>
    decreases pieces.len(),
{
    if pieces.len() == 0 {
        Seq::<char>::empty()
    } else if pieces.len() == 1 {
        pieces[0]
    } else {
        join_with_commas(pieces.drop_last()).push(',') + pieces.last()
    }
}

/// Trimming at the start leaves nothing exactly of a blank sequence, and
/// what it leaves of another begins with a character that is not white
/// space.
pub proof fn lemma_trim_start(s: Seq<char>)
    ensures
        trim_start(s).len() == 0 <==> blank(s),
        trim_start(s).len() > 0 ==> !white_space(trim_start(s).first()),
    decreases s.len(),
{
    if s.len() > 0 && white_space(s.first()) {
        let rest = s.drop_first();
        lemma_trim_start(rest);
        if blank(rest) {
            assert forall|i: int| 0 <= i < s.len() implies white_space(#[trigger] s[i]) by {
                if i > 0 {
                    assert(s[i] == rest[i - 1]);
                }
            }
        } else {
            let j = choose|j: int| 0 <= j < rest.len() && !white_space(#[trigger] rest[j]);
            assert(s[j + 1] == rest[j]);
        }
    }
}

/// Trimming at the end leaves nothing exactly of a blank sequence.
pub proof fn lemma_trim_end(s: Seq<char>)
    ensures
        trim_end(s).len() == 0 <==> blank(s),
    decreases s.len(),
{
    if s.len() > 0 && white_space(s.last()) {
        let rest = s.drop_last();
        lemma_trim_end(rest);
        if blank(rest) {
            assert forall|i: int| 0 <= i < s.len() implies white_space(#[trigger] s[i]) by {
                if i < rest.len() {
                    assert(s[i] == rest[i]);
                }
            }
        } else {
            let j = choose|j: int| 0 <= j < rest.len() && !white_space(#[trigger] rest[j]);
            assert(s[j] == rest[j]);
        }
    }
}

/// A trimmed piece is empty exactly when the piece is blank: a selector is
/// a piece that holds a character other than white space.
pub proof fn lemma_trim_empty_iff_blank(s: Seq<char>)
    ensures
        trim(s).len() == 0 <==> blank(s),
{
    lemma_trim_start(s);
    lemma_trim_end(trim_start(s));
}

/// A comma at the end of a selector list opens a new, empty piece; any
/// other character joins the last piece.
pub proof fn lemma_split_push(text: Seq<char>, c: char)
    ensures
        split_at_commas(text).len() > 0,
        c == ',' ==> split_at_commas(text.push(c)) == split_at_commas(text).push(
            Seq::<char>::empty(),
        ),
        c != ',' ==> split_at_commas(text.push(c)) == split_at_commas(text).drop_last().push(
            last_piece(text).push(c),
        ),
{
    assert(text.push(c).drop_last() =~= text);
}

/// Splitting loses nothing: the pieces, joined with commas, give the
/// selector list back.
pub proof fn lemma_split_joins_back(text: Seq<char>)
    ensures
        join_with_commas(split_at_commas(text)) == text,
    decreases text.len(),
{
    if text.len() > 0 {
        let before = text.drop_last();
        let c = text.last();
        let pieces = split_at_commas(before);
        lemma_split_joins_back(before);
        if c == ',' {
            let grown = pieces.push(Seq::<char>::empty());
            assert(grown.drop_last() =~= pieces);
        } else {
            let init = pieces.drop_last();
            let last = pieces.last();
            let grown = init.push(last.push(c));
            assert(grown.drop_last() =~= init);
            if pieces.len() > 1 {
                assert(join_with_commas(grown) =~= (join_with_commas(init).push(',') + last).push(
                    c,
                ));
            }
        }
    }
}

/// No piece of a selector list holds a comma.
pub proof fn lemma_pieces_hold_no_comma(text: Seq<char>)
    ensures
        forall|i: int, j: int|
            0 <= i < split_at_commas(text).len() && 0 <= j < split_at_commas(text)[i].len()
                ==> #[trigger] split_at_commas(text)[i][j] != ',',
    decreases text.len(),
{
    if text.len() > 0 {
        lemma_pieces_hold_no_comma(text.drop_last());
        lemma_split_push(text.drop_last(), text.last());
    }
}

/// A selector list without a comma is one piece: it holds one selector, or
/// none if it is blank.
pub proof fn lemma_split_without_comma(text: Seq<char>)
    requires
        forall|i: int| 0 <= i < text.len() ==> text[i] != ',',
    ensures
        split_at_commas(text) == seq![text],
        selector_count(text) == (if blank(text) {
            0nat
        } else {
            1nat
        }),
    decreases text.len(),
{
    if text.len() > 0 {
        let before = text.drop_last();
        lemma_split_without_comma(before);
        assert(before.push(text.last()) =~= text);
    } else {
        assert(text =~= Seq::<char>::empty());
    }
    lemma_trimmed_nonempty_push(Seq::<Seq<char>>::empty(), text);
}

/// One more piece adds one selector unless the piece is blank.
pub proof fn lemma_trimmed_nonempty_push(pieces: Seq<Seq<char>>, piece: Seq<char>)
    ensures
        trimmed_nonempty(pieces.push(piece)).len() == trimmed_nonempty(pieces).len() + (if blank(
            piece,
        ) {
            0nat
        } else {
            1nat
        }),
{
    let f = |piece: Seq<char>| trim(piece);
    let p = |piece: Seq<char>| piece.len() > 0;
    let trimmed = pieces.map_values(f);
    assert(pieces.push(piece).map_values(f) =~= trimmed.push(trim(piece)));
    trimmed.lemma_filter_len_push(p, trim(piece));
    lemma_trim_empty_iff_blank(piece);
}

/// How the number of selectors changes when a selector list grows by one
/// character: it rises by one when a character that is neither a comma nor
/// white space joins a piece that was blank, and stays as it was otherwise.
pub proof fn lemma_selector_count_push(text: Seq<char>, c: char)
    ensures
        selector_count(text.push(c)) == selector_count(text) + (if c != ',' && !white_space(c)
            && blank(last_piece(text)) {
            1nat
        } else {
            0nat
        }),
        blank(last_piece(text.push(c))) == (c == ',' || (white_space(c) && blank(
            last_piece(text),
        ))),
{
    lemma_split_push(text, c);
    let pieces = split_at_commas(text);
    let init = pieces.drop_last();
    let last = pieces.last();
    assert(pieces =~= init.push(last));
    lemma_trimmed_nonempty_push(init, last);
    if c == ',' {
        lemma_trimmed_nonempty_push(pieces, Seq::<char>::empty());
    } else {
        let grown = last.push(c);
        lemma_trimmed_nonempty_push(init, grown);
        if blank(last) && white_space(c) {
            assert forall|i: int| 0 <= i < grown.len() implies white_space(#[trigger] grown[i]) by {
                if i < last.len() {
                    assert(grown[i] == last[i]);
                }
            }
        } else if !blank(last) {
            let j = choose|j: int| 0 <= j < last.len() && !white_space(#[trigger] last[j]);
            assert(grown[j] == last[j]);
        } else {
            assert(grown[last.len() as int] == c);
        }
    }
}

/// A selector list holds no more selectors than characters.
pub proof fn lemma_selector_count_bounded(text: Seq<char>)
    ensures
        selector_count(text) <= text.len(),
    decreases text.len(),
{
    if text.len() == 0 {
        lemma_split_without_comma(text);
    } else {
        lemma_selector_count_bounded(text.drop_last());
        lemma_selector_count_push(text.drop_last(), text.last());
        assert(text.drop_last().push(text.last()) =~= text);
    }
}

/// Counts the selectors of the selector list `text`.
pub fn count_selectors(text: &[char]) -> (count: usize)
    ensures
        count == selector_count(text@),
{
    let mut complete: usize = 0;
    let mut has_content = false;
    proof {
        lemma_split_without_comma(text@.take(0));
    }
    for i in 0..text.len()
        invariant
            complete + (if has_content {
                1nat
            } else {
                0nat
            }) == selector_count(text@.take(i as int)),
            has_content == !blank(last_piece(text@.take(i as int))),
            selector_count(text@.take(i as int)) <= i,
    {
        let c = text[i];
        proof {
            let seen = text@.take(i as int);
            assert(text@.take(i + 1) =~= seen.push(c));
            lemma_selector_count_push(seen, c);
        }
        if c == ',' {
            if has_content {
                complete += 1;
            }
            has_content = false;
        } else if !is_whitespace(c) {
            has_content = true;
        }
    }
    assert(text@.take(text.len() as int) =~= text@);
    if has_content {
        complete += 1;
    }
    complete
}

} // verus!
