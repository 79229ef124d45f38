//! The ids of runs.
use crate::text::{cat5, decimal, decimal_text};
use vstd::prelude::*;

verus! {

/// The hexadecimal digit for `d`.
pub open spec fn hex_char(d: nat) -> char {
    if d < 10 {
        ('0' as u32 + d) as char
    } else {
        ('a' as u32 + (d - 10)) as char
    }
}

/// The hexadecimal digits of `n`.
pub open spec fn hex(n: nat) -> Seq<char>
    decreases n,
{
    if n < 16 {
        seq![hex_char(n)]
    } else {
        hex(n / 16).push(hex_char(n % 16))
    }
}

/// `s` with as many zeros before it as it takes to fill `width` characters.
pub open spec fn zero_padded(s: Seq<char>, width: nat) -> Seq<char>
    decreases width,
{
    if s.len() >= width || width == 0 {
        s
    } else {
        seq!['0'] + zero_padded(s, (width - 1) as nat)
    }
}

/// The id of the run with the number `n` that was created `secs` seconds after
/// the Unix epoch.
pub open spec fn run_id_text(secs: nat, n: nat) -> Seq<char> {
    "run_"@ + decimal(secs) + "_"@ + zero_padded(hex(n), 6)
}

fn digit(d: u64) -> (c: char)
    requires
        d < 16,
    ensures
        c == hex_char(d as nat),
{
    if d == 0 {
        '0'
    } else if d == 1 {
        '1'
    } else if d == 2 {
        '2'
    } else if d == 3 {
        '3'
    } else if d == 4 {
        '4'
    } else if d == 5 {
        '5'
    } else if d == 6 {
        '6'
    } else if d == 7 {
        '7'
    } else if d == 8 {
        '8'
    } else if d == 9 {
        '9'
    } else if d == 10 {
        'a'
    } else if d == 11 {
        'b'
    } else if d == 12 {
        'c'
    } else if d == 13 {
        'd'
    } else if d == 14 {
        'e'
    } else {
        'f'
    }
}

fn hex_text(n: u64) -> (r: String)
    ensures
        r@ == hex(n as nat),
    decreases n,
{
    let mut out = if n < 16 {
        String::new()
    } else {
        hex_text(n / 16)
    };
    let c = digit(n % 16);
    out.push(c);
    proof {
        assert(Seq::<char>::empty().push(c) =~= seq![c]);
    }
    out
}

fn pad(s: String, width: usize) -> (r: String)
    ensures
        r@ == zero_padded(s@, width as nat),
    decreases width,
{
    if width == 0 || s.as_str().unicode_len() >= width {
        s
    } else {
        let rest = pad(s, width - 1);
        let out = crate::text::cat2("0", rest.as_str());
        proof {
            reveal_strlit("0");
            assert("0"@ =~= seq!['0']);
        }
        out
    }
}

/// The id of the run with the number `n` of this process, created `secs`
/// seconds after the Unix epoch: `run_<seconds>_<number>`, the number in
/// hexadecimal with at least six digits.
pub fn new_run_id(secs: u64, n: u64) -> (r: String)
    ensures
        r@ == run_id_text(secs as nat, n as nat),
{
    let number = pad(hex_text(n), 6);
    let out = cat5("run_", decimal_text(secs).as_str(), "_", number.as_str(), "");
    proof {
        reveal_strlit("");
        assert(out@ =~= run_id_text(secs as nat, n as nat));
    }
    out
}

/// The numbers of the runs of a process: how many have been given out.
#[derive(Debug)]
pub struct RunNumbers {
    pub given: u64,
}

impl RunNumbers {
    /// No number has been given out.
    pub fn new() -> (r: Self)
        ensures
            r.given == 0,
    {
        RunNumbers { given: 0 }
    }

    /// The id of the next run, created `secs` seconds after the Unix epoch. Its
    /// number is greater than every number before it.
    pub fn next_id(&mut self, secs: u64) -> (r: String)
        requires
            old(self).given < u64::MAX,
        ensures
            r@ == run_id_text(secs as nat, old(self).given as nat),
            final(self).given == old(self).given + 1,
    {
        let n: u64 = self.given;
        self.given = n + 1;
        new_run_id(secs, n)
    }
}

/// What stands behind the last `_` of `s`.
spec fn behind_last_mark(s: Seq<char>) -> Seq<char>
    decreases s.len(),
{
    if s.len() == 0 || s.last() == '_' {
        Seq::empty()
    } else {
        behind_last_mark(s.drop_last()).push(s.last())
    }
}

spec fn no_mark(s: Seq<char>) -> bool {
    forall|i: int| 0 <= i < s.len() ==> #[trigger] s[i] != '_'
}

proof fn lemma_behind(head: Seq<char>, tail: Seq<char>)
    requires
        head.len() > 0,
        head.last() == '_',
        no_mark(tail),
    ensures
        behind_last_mark(head + tail) == tail,
    decreases tail.len(),
{
    let whole = head + tail;
    if tail.len() == 0 {
        assert(whole =~= head);
        assert(behind_last_mark(whole) =~= tail);
    } else {
        assert(whole.drop_last() =~= head + tail.drop_last());
        assert(tail[tail.len() - 1] != '_');
        assert forall|i: int| 0 <= i < tail.drop_last().len() implies #[trigger] tail.drop_last()[i]
            != '_' by {
            assert(tail[i] != '_');
        }
        lemma_behind(head, tail.drop_last());
        assert(tail.drop_last().push(tail.last()) =~= tail);
    }
}

spec fn hex_value(s: Seq<char>) -> nat
    decreases s.len(),
{
    if s.len() == 0 {
        0
    } else {
        let d: nat = if s.last() <= '9' {
            (s.last() as u32 - '0' as u32) as nat
        } else {
            (10 + (s.last() as u32 - 'a' as u32)) as nat
        };
        hex_value(s.drop_last()) * 16 + d
    }
}

proof fn lemma_hex(n: nat)
    ensures
        hex_value(hex(n)) == n,
        no_mark(hex(n)),
    decreases n,
{
    if n < 16 {
        let s = hex(n);
        assert(s.drop_last() =~= Seq::<char>::empty());
        assert(s.last() == hex_char(n));
        assert(hex_value(s.drop_last()) == 0);
    } else {
        lemma_hex(n / 16);
        let s = hex(n);
        assert(s.drop_last() =~= hex(n / 16));
        assert(s.last() == hex_char(n % 16));
        assert(n == (n / 16) * 16 + n % 16);
        assert forall|i: int| 0 <= i < s.len() implies #[trigger] s[i] != '_' by {
            if i < s.len() - 1 {
                assert(s[i] == hex(n / 16)[i]);
            }
        }
    }
}

proof fn lemma_zero_first(s: Seq<char>)
    ensures
        hex_value(seq!['0'] + s) == hex_value(s),
    decreases s.len(),
{
    let t = seq!['0'] + s;
    if s.len() == 0 {
        assert(t.drop_last() =~= Seq::<char>::empty());
        assert(hex_value(t.drop_last()) == 0);
    } else {
        assert(t.drop_last() =~= seq!['0'] + s.drop_last());
        lemma_zero_first(s.drop_last());
    }
}

proof fn lemma_padded(s: Seq<char>, width: nat)
    requires
        no_mark(s),
    ensures
        hex_value(zero_padded(s, width)) == hex_value(s),
        no_mark(zero_padded(s, width)),
    decreases width,
{
    if s.len() < width {
        let rest = zero_padded(s, (width - 1) as nat);
        lemma_padded(s, (width - 1) as nat);
        lemma_zero_first(rest);
        let out = zero_padded(s, width);
        assert forall|i: int| 0 <= i < out.len() implies #[trigger] out[i] != '_' by {
            if i > 0 {
                assert(out[i] == rest[i - 1]);
            }
        }
    }
}

/// Runs with different numbers have different ids, whenever they were created.
pub proof fn numbers_make_ids_unique(secs: nat, n: nat, other_secs: nat, m: nat)
    requires
        n != m,
    ensures
        run_id_text(secs, n) != run_id_text(other_secs, m),
{
    reveal_strlit("run_");
    reveal_strlit("_");
    let a = "run_"@ + decimal(secs) + "_"@;
    let b = "run_"@ + decimal(other_secs) + "_"@;
    let x = zero_padded(hex(n), 6);
    let y = zero_padded(hex(m), 6);
    lemma_hex(n);
    lemma_hex(m);
    lemma_padded(hex(n), 6);
    lemma_padded(hex(m), 6);
    assert(a.last() == '_');
    assert(b.last() == '_');
    lemma_behind(a, x);
    lemma_behind(b, y);
}

/// Whether the ids are those of consecutive runs of a process, created at
/// these times, when `given` numbers had been given out before.
pub open spec fn are_successive(ids: Seq<Seq<char>>, times: Seq<nat>, given: nat) -> bool {
    ids.len() == times.len() && forall|i: int|
        0 <= i < ids.len() ==> #[trigger] ids[i] == run_id_text(times[i], (given + i) as nat)
}

/// No id of a process repeats, whenever its runs were created.
pub proof fn ids_never_repeat(ids: Seq<Seq<char>>, times: Seq<nat>, given: nat, i: int, j: int)
    requires
        are_successive(ids, times, given),
        0 <= i < j < ids.len(),
    ensures
        ids[i] != ids[j],
{
    numbers_make_ids_unique(times[i], (given + i) as nat, times[j], (given + j) as nat);
}

/// The id of a run shows when it was created, and behind that its number with at
/// least six digits.
pub proof fn id_shows_when_the_run_was_created(secs: nat, n: nat)
    ensures
        ({
            let head = "run_"@ + decimal(secs) + "_"@;
            let id = run_id_text(secs, n);
            &&& id.len() >= head.len() + 6
            &&& id.take(head.len() as int) == head
        }),
{
    let head = "run_"@ + decimal(secs) + "_"@;
    let id = run_id_text(secs, n);
    assert(id.take(head.len() as int) =~= head);
    lemma_width(hex(n), 6);
}

proof fn lemma_width(s: Seq<char>, width: nat)
    requires
        s.len() > 0,
    ensures
        zero_padded(s, width).len() >= width,
    decreases width,
{
    if s.len() < width {
        lemma_width(s, (width - 1) as nat);
        lemma_exact_width(s, (width - 1) as nat);
    }
}

proof fn lemma_exact_width(s: Seq<char>, width: nat)
    requires
        s.len() <= width,
    ensures
        zero_padded(s, width).len() == width,
    decreases width,
{
    if s.len() < width {
        lemma_exact_width(s, (width - 1) as nat);
    }
}

} // verus!
