use vstd::prelude::*;

use vstd::string::StrSliceExecFns;
use vstd::string::StringExecFns;

use crate::model::{CellView, Counts};

verus! {

/// A listing of the counters of every key ever constructed, sorted by
/// display name.
pub struct AllCounts {
    pub entries: Vec<(String, Counts)>,
}

/// Lexicographic code-point order on names, compared from position `i` on:
/// a shorter name precedes every longer name it is a prefix of.
pub open spec fn lex_leq_from(a: Seq<char>, b: Seq<char>, i: int) -> bool
    decreases a.len() - i,
{
    if i >= a.len() {
        true
    } else if i >= b.len() {
        false
    } else if (a[i] as u32) < (b[i] as u32) {
        true
    } else if (a[i] as u32) > (b[i] as u32) {
        false
    } else {
        lex_leq_from(a, b, i + 1)
    }
}

/// `a` comes no later than `b` in lexicographic code-point order.
pub open spec fn lex_leq(a: Seq<char>, b: Seq<char>) -> bool {
    lex_leq_from(a, b, 0)
}

/// The order is total: of two names one comes no later than the other.
pub proof fn lemma_lex_total_from(a: Seq<char>, b: Seq<char>, i: int)
    ensures
        lex_leq_from(a, b, i) || lex_leq_from(b, a, i),
    decreases a.len() - i,
{
    if i >= a.len() || i >= b.len() {
    } else if (a[i] as u32) == (b[i] as u32) {
        lemma_lex_total_from(a, b, i + 1);
    }
}

/// The order is transitive.
pub proof fn lemma_lex_trans_from(a: Seq<char>, b: Seq<char>, c: Seq<char>, i: int)
    requires
        lex_leq_from(a, b, i),
        lex_leq_from(b, c, i),
    ensures
        lex_leq_from(a, c, i),
    decreases a.len() - i,
{
    if i >= a.len() {
    } else if i < b.len() && (a[i] as u32) == (b[i] as u32) && i < c.len() && (b[i] as u32) == (
    c[i] as u32) {
        lemma_lex_trans_from(a, b, c, i + 1);
    }
}

/// `a` comes no later than `b` in lexicographic code-point order.
fn str_le(a: &str, b: &str) -> (r: bool)
    ensures
        r == lex_leq(a@, b@),
{
    let alen = a.unicode_len();
    let blen = b.unicode_len();
    let mut i: usize = 0;
    loop
        invariant
            i <= alen,
            i <= blen,
            alen == a@.len(),
            blen == b@.len(),
            lex_leq(a@, b@) == lex_leq_from(a@, b@, i as int),
        decreases alen - i,
    {
        if i >= alen {
            return true;
        }
        if i >= blen {
            return false;
        }
        let ca = a.get_char(i) as u32;
        let cb = b.get_char(i) as u32;
        if ca < cb {
            return true;
        }
        if ca > cb {
            return false;
        }
        i = i + 1;
    }
}

/// The listing is sorted by display name.
pub open spec fn sorted_by_name(s: Seq<(String, Counts)>) -> bool {
    forall|i: int, j: int|
        0 <= i < j < s.len() ==> lex_leq((#[trigger] s[i]).0@, (#[trigger] s[j]).0@)
}

/// The listing holds, entry by entry along the key sequence `ks`, the name
/// and counters of exactly the keys of model `m`: every entry is some key's
/// cell, and every key of `m` appears.
pub open spec fn lists_exactly(
    entries: Seq<(String, Counts)>,
    m: Map<u64, CellView>,
    ks: Seq<u64>,
) -> bool {
    &&& ks.len() == entries.len()
    &&& forall|i: int|
        0 <= i < ks.len() ==> m.dom().contains(#[trigger] ks[i]) && entries[i].0@ == m[ks[i]].name
            && entries[i].1.matches_cell(m[ks[i]])
    &&& forall|k: u64| m.dom().contains(k) ==> ks.contains(k)
}

/// The raw listing rows: key, display name, counters.
pub(crate) type RawEntry = (u64, String, Counts);

/// Rows sorted by display name.
pub(crate) open spec fn sorted_raw(s: Seq<RawEntry>) -> bool {
    forall|i: int, j: int|
        0 <= i < j < s.len() ==> lex_leq((#[trigger] s[i]).1@, (#[trigger] s[j]).1@)
}

/// The index of a row whose name comes no later than every other row's name.
fn min_index(v: &Vec<RawEntry>) -> (m: usize)
    requires
        v@.len() > 0,
    ensures
        m < v@.len(),
        forall|j: int| 0 <= j < v@.len() ==> lex_leq(v@[m as int].1@, (#[trigger] v@[j]).1@),
{
    let mut m: usize = 0;
    let mut j: usize = 1;
    proof {
        lemma_lex_total_from(v@[0].1@, v@[0].1@, 0);
    }
    while j < v.len()
        invariant
            m < j <= v@.len(),
            forall|t: int| 0 <= t < j ==> lex_leq(v@[m as int].1@, (#[trigger] v@[t]).1@),
        decreases v@.len() - j,
    {
        let best = &v[m];
        let cand = &v[j];
        if !str_le(best.1.as_str(), cand.1.as_str()) {
            proof {
                lemma_lex_total_from(v@[m as int].1@, v@[j as int].1@, 0);
                assert forall|t: int| 0 <= t < j + 1 implies lex_leq(
                    v@[j as int].1@,
                    (#[trigger] v@[t]).1@,
                ) by {
                    if t < j {
                        lemma_lex_trans_from(v@[j as int].1@, v@[m as int].1@, v@[t].1@, 0);
                    } else {
                        lemma_lex_total_from(v@[j as int].1@, v@[j as int].1@, 0);
                    }
                }
            }
            m = j;
        }
        j = j + 1;
    }
    m
}

/// Sort the rows by display name: the result is a rearrangement of the
/// input, sorted.
pub(crate) fn sort_entries(input: Vec<RawEntry>) -> (r: Vec<RawEntry>)
    ensures
        r@.to_multiset() == input@.to_multiset(),
        r@.len() == input@.len(),
        sorted_raw(r@),
{
    broadcast use vstd::seq_lib::group_to_multiset_ensures;

    let mut v = input;
    let mut out: Vec<RawEntry> = Vec::new();
    proof {
        assert(out@.to_multiset().add(v@.to_multiset()) =~= v@.to_multiset());
    }
    while v.len() > 0
        invariant
            out@.to_multiset().add(v@.to_multiset()) == input@.to_multiset(),
            out@.len() + v@.len() == input@.len(),
            sorted_raw(out@),
            forall|i: int, j: int|
                0 <= i < out@.len() && 0 <= j < v@.len() ==> lex_leq(
                    (#[trigger] out@[i]).1@,
                    (#[trigger] v@[j]).1@,
                ),
        decreases v@.len(),
    {
        let ghost prev_v = v@;
        let ghost prev_out = out@;
        let m = min_index(&v);
        let x = v.remove(m);
        out.push(x);
        proof {
            vstd::seq_lib::to_multiset_remove(prev_v, m as int);
            vstd::seq_lib::to_multiset_build(prev_out, x);
            vstd::seq_lib::to_multiset_contains(prev_v, x);
            assert(0 <= m < prev_v.len() && prev_v[m as int] == x);
            assert(prev_v.contains(x));
            assert(prev_v.to_multiset().contains(x));
            assert(out@.to_multiset().add(v@.to_multiset()) =~= prev_out.to_multiset().add(
                prev_v.to_multiset(),
            ));
            assert forall|i: int, j: int|
                0 <= i < out@.len() && 0 <= j < v@.len() implies lex_leq(
                (#[trigger] out@[i]).1@,
                (#[trigger] v@[j]).1@,
            ) by {
                let jj = if j < m { j } else { j + 1 };
                assert(v@[j] == prev_v[jj]);
                if i < out@.len() - 1 {
                    assert(lex_leq(out@[i].1@, x.1@));
                }
            }
            assert forall|i: int, j: int| 0 <= i < j < out@.len() implies lex_leq(
                (#[trigger] out@[i]).1@,
                (#[trigger] out@[j]).1@,
            ) by {
                if j == out@.len() - 1 {
                    assert(lex_leq(prev_out[i].1@, prev_v[m as int].1@));
                }
            }
        }
    }
    out
}

/// The decimal digit characters.
pub open spec fn digit_char(d: nat) -> char {
    if d == 0 {
        '0'
    } else if d == 1 {
        '1'
    } else if d == 2 {
        '2'
    } else if d == 3 {
        '3'
    } else if d == 4 {
        '4'
    } else if d == 5 {
        '5'
    } else if d == 6 {
        '6'
    } else if d == 7 {
        '7'
    } else if d == 8 {
        '8'
    } else {
        '9'
    }
}

/// The decimal digits of `n`, most significant first.
pub open spec fn dec_digits(n: nat) -> Seq<char>
    decreases n,
{
    if n < 10 {
        seq![digit_char(n)]
    } else {
        dec_digits(n / 10).push(digit_char(n % 10))
    }
}

/// A thousands group zero-padded to exactly three digits.
pub open spec fn pad3(n: nat) -> Seq<char> {
    if n < 10 {
        seq!['0', '0'] + dec_digits(n)
    } else if n < 100 {
        seq!['0'] + dec_digits(n)
    } else {
        dec_digits(n)
    }
}

/// `n` in decimal with an underscore between thousands groups; every group
/// but the first is zero-padded to three digits.
pub open spec fn grouped(n: nat) -> Seq<char>
    decreases n,
{
    if n < 1000 {
        dec_digits(n)
    } else {
        grouped(n / 1000) + seq!['_'] + pad3(n % 1000)
    }
}

/// `n` spaces.
pub open spec fn spaces(n: nat) -> Seq<char>
    decreases n,
{
    if n == 0 {
        Seq::empty()
    } else {
        spaces((n - 1) as nat).push(' ')
    }
}

/// `s` left-aligned in a field of width `w`; a longer `s` stands as it is.
pub open spec fn pad_right(s: Seq<char>, w: nat) -> Seq<char> {
    if s.len() >= w {
        s
    } else {
        s + spaces((w - s.len()) as nat)
    }
}

/// `s` right-aligned in a field of width `w`; a longer `s` stands as it is.
pub open spec fn pad_left(s: Seq<char>, w: nat) -> Seq<char> {
    if s.len() >= w {
        s
    } else {
        spaces((w - s.len()) as nat) + s
    }
}

/// One table row: the name left-aligned to `w`, two spaces, then the three
/// counters, each grouped in thousands and right-aligned to twelve columns,
/// separated by single spaces and closed by a newline.
pub open spec fn line_spec(name: Seq<char>, c: Counts, w: nat) -> Seq<char> {
    pad_right(name, w) + seq![' ', ' '] + pad_left(grouped(c.total as nat), 12) + seq![' ']
        + pad_left(grouped(c.max_live as nat), 12) + seq![' '] + pad_left(
        grouped(c.live as nat),
        12,
    ) + seq!['\n']
}

/// The trailing header row labelling the three columns.
pub open spec fn header_spec(w: nat) -> Seq<char> {
    spaces(w) + seq![' ', ' '] + pad_left("total"@, 12) + seq![' '] + pad_left("max_live"@, 12)
        + seq![' '] + pad_left("live"@, 12) + seq!['\n']
}

/// The length of the longest name of the listing.
pub open spec fn max_name_len(entries: Seq<(String, Counts)>) -> nat
    decreases entries.len(),
{
    if entries.len() == 0 {
        0
    } else {
        let rest = max_name_len(entries.drop_last());
        if entries.last().0@.len() > rest {
            entries.last().0@.len()
        } else {
            rest
        }
    }
}

/// The table rows of `entries`, each rendered to width `w`, in order.
pub open spec fn lines_spec(entries: Seq<(String, Counts)>, w: nat) -> Seq<char>
    decreases entries.len(),
{
    if entries.len() == 0 {
        Seq::empty()
    } else {
        lines_spec(entries.drop_last(), w) + line_spec(entries.last().0@, entries.last().1, w)
    }
}

/// The whole report: every row and the header, or a single explanatory line
/// when no type was ever observed.
pub open spec fn render_spec(entries: Seq<(String, Counts)>) -> Seq<char> {
    if entries.len() == 0 {
        "all counts are zero\n"@
    } else {
        lines_spec(entries, max_name_len(entries)) + header_spec(max_name_len(entries))
    }
}

/// No name is longer than the longest.
proof fn lemma_max_name_len_bound(entries: Seq<(String, Counts)>, i: int)
    requires
        0 <= i < entries.len(),
    ensures
        entries[i].0@.len() <= max_name_len(entries),
    decreases entries.len(),
{
    if i < entries.len() - 1 {
        lemma_max_name_len_bound(entries.drop_last(), i);
    }
}

/// The decimal digit characters, as one-character string slices.
fn digit_str(d: usize) -> (r: &'static str)
    requires
        d < 10,
    ensures
        r@ == seq![digit_char(d as nat)],
{
    proof {
        reveal_strlit("0");
        reveal_strlit("1");
        reveal_strlit("2");
        reveal_strlit("3");
        reveal_strlit("4");
        reveal_strlit("5");
        reveal_strlit("6");
        reveal_strlit("7");
        reveal_strlit("8");
        reveal_strlit("9");
    }
    let r = if d == 0 {
        "0"
    } else if d == 1 {
        "1"
    } else if d == 2 {
        "2"
    } else if d == 3 {
        "3"
    } else if d == 4 {
        "4"
    } else if d == 5 {
        "5"
    } else if d == 6 {
        "6"
    } else if d == 7 {
        "7"
    } else if d == 8 {
        "8"
    } else {
        "9"
    };
    proof {
        assert(r@ =~= seq![digit_char(d as nat)]);
    }
    r
}

/// `n` in decimal appended to `out`.
fn push_digits(out: &mut String, n: usize)
    ensures
        final(out)@ == old(out)@ + dec_digits(n as nat),
    decreases n,
{
    if n < 10 {
        out.append(digit_str(n));
        proof {
            assert(out@ =~= old(out)@ + dec_digits(n as nat));
        }
    } else {
        push_digits(out, n / 10);
        out.append(digit_str(n % 10));
        proof {
            assert(out@ =~= old(out)@ + dec_digits(n as nat));
        }
    }
}

/// `n` grouped in thousands appended to `out`.
fn push_grouped(out: &mut String, n: usize)
    ensures
        final(out)@ == old(out)@ + grouped(n as nat),
    decreases n,
{
    if n < 1000 {
        push_digits(out, n);
    } else {
        push_grouped(out, n / 1000);
        out.append("_");
        let rem = n % 1000;
        if rem < 10 {
            out.append("00");
        } else if rem < 100 {
            out.append("0");
        }
        push_digits(out, rem);
        proof {
            reveal_strlit("_");
            reveal_strlit("00");
            reveal_strlit("0");
            assert("_"@ =~= seq!['_']);
            assert("00"@ =~= seq!['0', '0']);
            assert("0"@ =~= seq!['0']);
            assert(out@ =~= old(out)@ + grouped(n as nat));
        }
    }
}

/// `n` spaces appended to `out`.
fn push_spaces(out: &mut String, n: usize)
    ensures
        final(out)@ == old(out)@ + spaces(n as nat),
{
    let mut i: usize = 0;
    proof {
        assert(out@ =~= old(out)@ + spaces(0));
    }
    while i < n
        invariant
            i <= n,
            out@ == old(out)@ + spaces(i as nat),
        decreases n - i,
    {
        out.append(" ");
        i = i + 1;
        proof {
            reveal_strlit(" ");
            assert(" "@ =~= seq![' ']);
            assert(out@ =~= old(out)@ + spaces(i as nat));
        }
    }
}

/// One counter, grouped and right-aligned to twelve columns, appended.
fn push_counter(out: &mut String, n: usize)
    ensures
        final(out)@ == old(out)@ + pad_left(grouped(n as nat), 12),
{
    let mut buf = String::new();
    push_grouped(&mut buf, n);
    proof {
        assert(buf@ =~= grouped(n as nat));
    }
    let blen = buf.as_str().unicode_len();
    if blen < 12 {
        push_spaces(out, 12 - blen);
    }
    out.append(buf.as_str());
    proof {
        assert(out@ =~= old(out)@ + pad_left(grouped(n as nat), 12));
    }
}

/// One table row appended to `out`.
fn push_line(out: &mut String, name: &str, c: &Counts, w: usize)
    requires
        name@.len() <= w,
    ensures
        final(out)@ == old(out)@ + line_spec(name@, *c, w as nat),
{
    out.append(name);
    let nl = name.unicode_len();
    push_spaces(out, w - nl);
    out.append("  ");
    push_counter(out, c.total);
    out.append(" ");
    push_counter(out, c.max_live);
    out.append(" ");
    push_counter(out, c.live);
    out.append("\n");
    proof {
        reveal_strlit("  ");
        reveal_strlit(" ");
        reveal_strlit("\n");
        assert("  "@ =~= seq![' ', ' ']);
        assert(" "@ =~= seq![' ']);
        assert("\n"@ =~= seq!['\n']);
        assert(pad_right(name@, w as nat) =~= name@ + spaces((w - name@.len()) as nat));
        assert(out@ =~= old(out)@ + line_spec(name@, *c, w as nat));
    }
}

/// The header row appended to `out`.
fn push_header(out: &mut String, w: usize)
    ensures
        final(out)@ == old(out)@ + header_spec(w as nat),
{
    push_spaces(out, w);
    out.append("  ");
    push_spaces(out, 7);
    out.append("total");
    out.append(" ");
    push_spaces(out, 4);
    out.append("max_live");
    out.append(" ");
    push_spaces(out, 8);
    out.append("live");
    out.append("\n");
    proof {
        reveal_strlit("  ");
        reveal_strlit(" ");
        reveal_strlit("\n");
        reveal_strlit("total");
        reveal_strlit("max_live");
        reveal_strlit("live");
        assert("  "@ =~= seq![' ', ' ']);
        assert(" "@ =~= seq![' ']);
        assert("\n"@ =~= seq!['\n']);
        assert(pad_left("total"@, 12) =~= spaces(7) + "total"@);
        assert(pad_left("max_live"@, 12) =~= spaces(4) + "max_live"@);
        assert(pad_left("live"@, 12) =~= spaces(8) + "live"@);
        assert(out@ =~= old(out)@ + header_spec(w as nat));
    }
}

impl AllCounts {
    /// The rendered table: one row per type, name left-aligned to the
    /// longest name present, the three counters grouped in thousands and
    /// right-aligned, then a header labelling the columns; a single
    /// explanatory line when no type was ever observed.
    #[verifier::loop_isolation(false)]
    pub fn to_text(&self) -> (r: String)
        ensures
            r@ == render_spec(self.entries@),
    {
        if self.entries.len() == 0 {
            return String::from_str("all counts are zero\n");
        }
        let mut w: usize = 0;
        let mut i: usize = 0;
        while i < self.entries.len()
            invariant
                i <= self.entries@.len(),
                w == max_name_len(self.entries@.take(i as int)),
            decreases self.entries@.len() - i,
        {
            let nl = self.entries[i].0.as_str().unicode_len();
            if nl > w {
                w = nl;
            }
            proof {
                assert(self.entries@.take(i + 1).drop_last() =~= self.entries@.take(i as int));
                assert(self.entries@.take(i + 1).last() == self.entries@[i as int]);
            }
            i = i + 1;
        }
        proof {
            assert(self.entries@.take(self.entries@.len() as int) =~= self.entries@);
        }
        let mut out = String::new();
        let mut j: usize = 0;
        while j < self.entries.len()
            invariant
                j <= self.entries@.len(),
                out@ == lines_spec(self.entries@.take(j as int), w as nat),
            decreases self.entries@.len() - j,
        {
            let e = &self.entries[j];
            proof {
                lemma_max_name_len_bound(self.entries@, j as int);
            }
            push_line(&mut out, e.0.as_str(), &e.1, w);
            proof {
                assert(self.entries@.take(j + 1).drop_last() =~= self.entries@.take(j as int));
                assert(self.entries@.take(j + 1).last() == self.entries@[j as int]);
                assert(out@ =~= lines_spec(self.entries@.take(j + 1), w as nat));
            }
            j = j + 1;
        }
        push_header(&mut out, w);
        proof {
            assert(out@ =~= render_spec(self.entries@));
        }
        out
    }
}

} // verus!
