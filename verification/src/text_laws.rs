//! What holds of every text: laws of searching, splitting, joining and trimming.
use crate::text::{
    all_digits, decimal, is_white, joined, lemma_split_nonempty, number_of, pair_at, signed_decimal,
    split_on, text_le, trim_end, trim_start, trimmed, unsigned_value,
};
use vstd::prelude::*;

verus! {

/// Whether `a` stands at `i` and `b` right behind it.
pub open spec fn pair_stands(s: Seq<char>, a: char, b: char, i: int) -> bool {
    0 <= i && i + 1 < s.len() && s[i] == a && s[i + 1] == b
}

/// A pair is found exactly where there is one, and it is the first.
pub proof fn found_pair_is_the_first(s: Seq<char>, a: char, b: char)
    ensures
        match pair_at(s, a, b) {
            Some(i) => pair_stands(s, a, b, i) && forall|j: int|
                0 <= j < i ==> !#[trigger] pair_stands(s, a, b, j),
            None => forall|j: int| !#[trigger] pair_stands(s, a, b, j),
        },
    decreases s.len(),
{
    if s.len() >= 2 && !(s[0] == a && s[1] == b) {
        let rest = s.drop_first();
        found_pair_is_the_first(rest, a, b);
        match pair_at(rest, a, b) {
            Some(i) => {
                assert(pair_stands(rest, a, b, i));
                assert forall|j: int| 0 <= j < i + 1 implies !#[trigger] pair_stands(
                    s,
                    a,
                    b,
                    j,
                ) by {
                    if j > 0 {
                        assert(!pair_stands(rest, a, b, j - 1));
                    }
                }
            },
            None => {
                assert forall|j: int| !#[trigger] pair_stands(s, a, b, j) by {
                    if j > 0 {
                        assert(!pair_stands(rest, a, b, j - 1));
                    }
                }
            },
        }
    }
}

/// Pieces that are joined in two parts are joined as a whole.
pub proof fn joining_goes_part_by_part(a: Seq<Seq<char>>, b: Seq<Seq<char>>, sep: Seq<char>)
    requires
        a.len() > 0,
        b.len() > 0,
    ensures
        joined(a + b, sep) == joined(a, sep) + sep + joined(b, sep),
    decreases b.len(),
{
    let all = a + b;
    assert(all.drop_last() =~= a + b.drop_last());
    assert(all.last() == b.last());
    if b.len() == 1 {
        assert(all.drop_last() =~= a);
        assert(joined(b, sep) == b[0]);
    } else {
        joining_goes_part_by_part(a, b.drop_last(), sep);
        assert(joined(all, sep) =~= joined(a, sep) + sep + joined(b, sep));
    }
}

/// A single piece is joined to itself, and no piece to nothing.
pub proof fn joining_one_piece_changes_nothing(piece: Seq<char>, sep: Seq<char>)
    ensures
        joined(seq![piece], sep) == piece,
        joined(Seq::empty(), sep) == Seq::<char>::empty(),
{
}

/// The pieces of a text that is split hold no separator, and joined by it they
/// are the text again.
pub proof fn split_pieces_make_the_text(s: Seq<char>, sep: char)
    ensures
        split_on(s, sep).len() > 0,
        joined(split_on(s, sep), seq![sep]) == s,
        forall|i: int, j: int|
            0 <= i < split_on(s, sep).len() && 0 <= j < split_on(s, sep)[i].len() ==> (
            #[trigger] split_on(s, sep)[i][j]) != sep,
    decreases s.len(),
{
    lemma_split_nonempty(s, sep);
    let pieces = split_on(s, sep);
    let none = Seq::<char>::empty();
    if s.len() == 0 {
        joining_one_piece_changes_nothing(none, seq![sep]);
        assert(joined(pieces, seq![sep]) =~= s);
    } else {
        let tail = s.drop_first();
        let rest = split_on(tail, sep);
        lemma_split_nonempty(tail, sep);
        split_pieces_make_the_text(tail, sep);
        assert(s =~= seq![s[0]] + tail);
        if s[0] == sep {
            assert(pieces =~= seq![none] + rest);
            joining_goes_part_by_part(seq![none], rest, seq![sep]);
            joining_one_piece_changes_nothing(none, seq![sep]);
            assert(joined(pieces, seq![sep]) =~= s);
            assert forall|i: int, j: int|
                0 <= i < pieces.len() && 0 <= j < pieces[i].len() implies (
            #[trigger] pieces[i][j]) != sep by {
                if i > 0 {
                    assert(pieces[i] == rest[i - 1]);
                    assert(rest[i - 1][j] != sep);
                }
            }
        } else {
            let first = seq![s[0]] + rest[0];
            assert(pieces =~= rest.update(0, first));
            if rest.len() == 1 {
                assert(pieces =~= seq![first]);
                assert(rest =~= seq![rest[0]]);
                joining_one_piece_changes_nothing(first, seq![sep]);
                joining_one_piece_changes_nothing(rest[0], seq![sep]);
            } else {
                let more = rest.drop_first();
                assert(pieces =~= seq![first] + more);
                assert(rest =~= seq![rest[0]] + more);
                joining_goes_part_by_part(seq![first], more, seq![sep]);
                joining_goes_part_by_part(seq![rest[0]], more, seq![sep]);
                joining_one_piece_changes_nothing(first, seq![sep]);
                joining_one_piece_changes_nothing(rest[0], seq![sep]);
            }
            assert(joined(pieces, seq![sep]) =~= s);
            assert forall|i: int, j: int|
                0 <= i < pieces.len() && 0 <= j < pieces[i].len() implies (
            #[trigger] pieces[i][j]) != sep by {
                if i > 0 {
                    assert(rest[i][j] != sep);
                } else if j > 0 {
                    assert(pieces[0][j] == rest[0][j - 1]);
                }
            }
        }
    }
}

/// Whether `s` does not hold `c`.
pub open spec fn lacks(s: Seq<char>, c: char) -> bool {
    forall|i: int| 0 <= i < s.len() ==> #[trigger] s[i] != c
}

/// Splitting `head`, the separator and `tail`, where `head` holds no separator,
/// gives `head` and then the pieces of `tail`.
pub proof fn first_piece_is_split_off(head: Seq<char>, tail: Seq<char>, sep: char)
    requires
        lacks(head, sep),
    ensures
        split_on(head + seq![sep] + tail, sep) == seq![head] + split_on(tail, sep),
    decreases head.len(),
{
    let all = head + seq![sep] + tail;
    lemma_split_nonempty(tail, sep);
    if head.len() == 0 {
        assert(all.drop_first() =~= tail);
        assert(head =~= Seq::<char>::empty());
    } else {
        let less = head.drop_first();
        assert(all.drop_first() =~= less + seq![sep] + tail);
        assert forall|i: int| 0 <= i < less.len() implies #[trigger] less[i] != sep by {
            assert(less[i] == head[i + 1]);
        }
        first_piece_is_split_off(less, tail, sep);
        assert(all[0] == head[0]);
        assert(seq![head[0]] + less =~= head);
        assert(split_on(all, sep) =~= seq![head] + split_on(tail, sep));
    }
}

/// A text without a separator is one piece.
pub proof fn text_without_separator_is_one_piece(s: Seq<char>, sep: char)
    requires
        lacks(s, sep),
    ensures
        split_on(s, sep) == seq![s],
    decreases s.len(),
{
    if s.len() == 0 {
        assert(s =~= Seq::<char>::empty());
    } else {
        let less = s.drop_first();
        assert forall|i: int| 0 <= i < less.len() implies #[trigger] less[i] != sep by {
            assert(less[i] == s[i + 1]);
        }
        text_without_separator_is_one_piece(less, sep);
        assert(seq![s[0]] + less =~= s);
        assert(split_on(s, sep) =~= seq![s]);
    }
}

/// Pieces without a separator, joined by it, are split into themselves.
pub proof fn joined_pieces_split_again(pieces: Seq<Seq<char>>, sep: char)
    requires
        pieces.len() > 0,
        forall|i: int| 0 <= i < pieces.len() ==> lacks(#[trigger] pieces[i], sep),
    ensures
        split_on(joined(pieces, seq![sep]), sep) == pieces,
    decreases pieces.len(),
{
    assert(lacks(pieces[0], sep));
    if pieces.len() == 1 {
        assert(pieces =~= seq![pieces[0]]);
        text_without_separator_is_one_piece(pieces[0], sep);
    } else {
        let more = pieces.drop_first();
        assert forall|i: int| 0 <= i < more.len() implies lacks(#[trigger] more[i], sep) by {
            assert(more[i] == pieces[i + 1]);
        }
        joined_pieces_split_again(more, sep);
        assert(pieces =~= seq![pieces[0]] + more);
        joining_goes_part_by_part(seq![pieces[0]], more, seq![sep]);
        joining_one_piece_changes_nothing(pieces[0], seq![sep]);
        first_piece_is_split_off(pieces[0], joined(more, seq![sep]), sep);
    }
}

/// Whether `s` is nothing but white space.
pub open spec fn blank(s: Seq<char>) -> bool {
    forall|i: int| 0 <= i < s.len() ==> is_white(#[trigger] s[i])
}

/// Whether `s` is empty or has no white space at its ends.
pub open spec fn tight(s: Seq<char>) -> bool {
    s.len() > 0 ==> !is_white(s[0]) && !is_white(s.last())
}

proof fn lemma_trim_start(lead: Seq<char>, s: Seq<char>)
    requires
        blank(lead),
        s.len() > 0 ==> !is_white(s[0]),
    ensures
        trim_start(lead + s) == s,
    decreases lead.len(),
{
    let all = lead + s;
    if lead.len() == 0 {
        assert(all =~= s);
    } else {
        assert(is_white(lead[0]));
        assert(all.drop_first() =~= lead.drop_first() + s);
        assert forall|i: int| 0 <= i < lead.drop_first().len() implies is_white(
            #[trigger] lead.drop_first()[i],
        ) by {
            assert(is_white(lead[i + 1]));
        }
        lemma_trim_start(lead.drop_first(), s);
    }
}

proof fn lemma_trim_end(s: Seq<char>, tail: Seq<char>)
    requires
        blank(tail),
        s.len() > 0 ==> !is_white(s.last()),
    ensures
        trim_end(s + tail) == s,
    decreases tail.len(),
{
    let all = s + tail;
    if tail.len() == 0 {
        assert(all =~= s);
    } else {
        assert(is_white(tail[tail.len() - 1]));
        assert(all.drop_last() =~= s + tail.drop_last());
        lemma_trim_end(s, tail.drop_last());
    }
}

/// Trimming takes the white space off both ends of a text and nothing else.
pub proof fn trimming_takes_off_the_blanks(lead: Seq<char>, s: Seq<char>, tail: Seq<char>)
    requires
        blank(lead),
        tight(s),
        blank(tail),
    ensures
        trimmed(lead + s + tail) == s,
{
    if s.len() == 0 {
        assert(s =~= Seq::<char>::empty());
        let all = lead + s + tail;
        assert(blank(all)) by {
            assert forall|i: int| 0 <= i < all.len() implies is_white(#[trigger] all[i]) by {
                if i < lead.len() {
                    assert(is_white(lead[i]));
                } else {
                    assert(is_white(tail[i - lead.len()]));
                }
            }
        }
        lemma_trim_start(all, s);
        assert(all + s =~= all);
        lemma_trim_end(s, s);
        assert(s + s =~= s);
    } else {
        assert(lead + s + tail =~= lead + (s + tail));
        lemma_trim_start(lead, s + tail);
        lemma_trim_end(s, tail);
    }
}

/// Trimming the start takes the leading white space off and nothing else.
pub proof fn trimming_start_takes_off_the_lead(lead: Seq<char>, s: Seq<char>)
    requires
        blank(lead),
        s.len() > 0,
        !is_white(s[0]),
    ensures
        trim_start(lead + s) == s,
{
    lemma_trim_start(lead, s);
}

/// Trimming the end leaves the front of a text: what is left begins like it.
pub proof fn trimming_end_keeps_the_front(s: Seq<char>)
    ensures
        trim_end(s).len() <= s.len(),
        forall|i: int| 0 <= i < trim_end(s).len() ==> #[trigger] trim_end(s)[i] == s[i],
    decreases s.len(),
{
    if s.len() > 0 && is_white(s.last()) {
        trimming_end_keeps_the_front(s.drop_last());
    }
}

/// A text is in order before another exactly where it is a part at its front,
/// or has the lesser character at the first place where they differ.
pub proof fn texts_are_ordered_by_the_first_difference(a: Seq<char>, b: Seq<char>, k: int)
    requires
        0 <= k <= a.len(),
        k <= b.len(),
        a.take(k) == b.take(k),
        k < a.len() && k < b.len() ==> a[k] != b[k],
    ensures
        text_le(a, b) <==> k == a.len() || (k < b.len() && a[k] < b[k]),
    decreases k,
{
    if k > 0 {
        assert(a.take(k)[0] == b.take(k)[0]);
        let x = a.drop_first();
        let y = b.drop_first();
        assert(x.take(k - 1) =~= a.take(k).drop_first());
        assert(y.take(k - 1) =~= b.take(k).drop_first());
        if k < a.len() && k < b.len() {
            assert(x[k - 1] == a[k] && y[k - 1] == b[k]);
        }
        texts_are_ordered_by_the_first_difference(x, y, k - 1);
        assert(a.take(k)[0] == a[0] && b.take(k)[0] == b[0]);
    }
}

/// Ten to the power of `n`.
pub open spec fn power_of_ten(n: nat) -> nat
    decreases n,
{
    if n == 0 {
        1
    } else {
        10 * power_of_ten((n - 1) as nat)
    }
}

/// Digits count by their place: what stands before the last `n` digits counts
/// ten to the power of `n` times.
pub proof fn digits_count_by_their_place(a: Seq<char>, b: Seq<char>)
    ensures
        number_of(a + b) == number_of(a) * power_of_ten(b.len()) + number_of(b),
    decreases b.len(),
{
    let all = a + b;
    if b.len() == 0 {
        assert(all =~= a);
        assert(number_of(a) * 1 == number_of(a)) by (nonlinear_arith);
    } else {
        let less = b.drop_last();
        digits_count_by_their_place(a, less);
        assert(all.drop_last() =~= a + less);
        let x = number_of(a);
        let p = power_of_ten(less.len());
        let y = number_of(less);
        assert((x * p + y) * 10 == x * (10 * p) + y * 10) by (nonlinear_arith);
    }
}

/// A single digit counts what it says.
pub proof fn digit_counts_what_it_says(c: char)
    requires
        '0' <= c <= '9',
    ensures
        number_of(seq![c]) == c as u32 - '0' as u32,
        all_digits(seq![c]),
        unsigned_value(seq![c]) == Some((c as u32 - '0' as u32) as u64),
{
    assert(seq![c].drop_last() =~= Seq::<char>::empty());
    assert(number_of(Seq::<char>::empty()) == 0);
}

/// The digits of a number have no zero in front, unless it is zero.
pub proof fn numbers_have_no_leading_zero(n: nat)
    requires
        n > 0,
    ensures
        decimal(n)[0] != '0',
    decreases n,
{
    if n >= 10 {
        numbers_have_no_leading_zero(n / 10);
        crate::text::lemma_decimal(n / 10);
        assert(decimal(n)[0] == decimal(n / 10)[0]);
    } else {
        assert(decimal(n)[0] == (('0' as u32) + n as u32) as char);
    }
}

/// Blanks, tabs and line ends are white space; letters, digits and signs are
/// not.
pub proof fn blanks_are_white(c: char)
    ensures
        c == ' ' || c == '\t' || c == '\n' || c == '\r' ==> is_white(c),
        '!' <= c <= '~' ==> !is_white(c),
{
}

/// A whole number is read back from its digits, with a plus sign before them or
/// without; anything else but digits is no number, and neither is nothing.
pub proof fn whole_numbers_are_read(n: u64, s: Seq<char>, i: int)
    ensures
        unsigned_value(decimal(n as nat)) == Some(n),
        unsigned_value(seq!['+'] + decimal(n as nat)) == Some(n),
        unsigned_value(Seq::empty()) is None,
        1 <= i < s.len() && !('0' <= s[i] <= '9') ==> unsigned_value(s) is None,
{
    crate::text::lemma_decimal(n as nat);
    let digits = decimal(n as nat);
    assert(crate::text::is_digit(digits[0]));
    assert(digits[0] != '+');
    let signed = seq!['+'] + digits;
    assert(signed.drop_first() =~= digits);
    if 1 <= i < s.len() && !('0' <= s[i] <= '9') {
        let rest = crate::text::without_plus(s);
        if s[0] == '+' {
            assert(rest[i - 1] == s[i]);
        } else {
            assert(rest[i] == s[i]);
        }
    }
}

/// A number too large to be counted is not read.
pub proof fn too_large_numbers_are_not_read(n: nat)
    requires
        n > u64::MAX,
    ensures
        unsigned_value(decimal(n)) is None,
{
    crate::text::lemma_decimal(n);
    assert(crate::text::is_digit(decimal(n)[0]));
    assert(decimal(n)[0] != '+');
}

/// A number below zero is written with a minus sign, any other without a sign.
pub proof fn numbers_below_zero_have_a_minus(n: nat)
    ensures
        n > 0 ==> signed_decimal(-(n as int)) == seq!['-'] + decimal(n),
        signed_decimal(n as int) == decimal(n),
{
    reveal_strlit("-");
    assert("-"@ =~= seq!['-']);
}

} // verus!
