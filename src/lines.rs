use vstd::prelude::*;

verus! {

/// The pieces of `s` between newline characters, in order. There is always
/// at least one piece: the (possibly empty) text after the last newline.
pub open spec fn pieces(s: Seq<char>) -> Seq<Seq<char>>
    decreases s.len(),
{
    if s.len() == 0 {
        seq![Seq::<char>::empty()]
    } else {
        let p = pieces(s.drop_last());
        if s.last() == '\n' {
            p.push(Seq::<char>::empty())
        } else {
            p.update(p.len() - 1, p.last().push(s.last()))
        }
    }
}

/// A newline-terminated piece loses one trailing carriage return.
pub open spec fn strip_cr(l: Seq<char>) -> Seq<char> {
    if l.len() > 0 && l.last() == '\r' {
        l.drop_last()
    } else {
        l
    }
}

/// The logical lines of `s`: every newline-terminated piece with a trailing
/// carriage return removed, then the unterminated rest if it is not empty.
pub open spec fn lines(s: Seq<char>) -> Seq<Seq<char>> {
    let p = pieces(s);
    let done = p.drop_last().map_values(|l: Seq<char>| strip_cr(l));
    if p.last().len() == 0 {
        done
    } else {
        done.push(p.last())
    }
}

/// `needle` occurs in `hay` as a contiguous run of characters.
pub open spec fn contains(hay: Seq<char>, needle: Seq<char>) -> bool {
    exists|i: int| 0 <= i <= hay.len() - needle.len() && #[trigger] hay.subrange(i, i + needle.len()) == needle
}

/// A line is kept when it contains none of the skip substrings.
pub open spec fn keeps(line: Seq<char>, skips: Seq<Seq<char>>) -> bool {
    forall|j: int| 0 <= j < skips.len() ==> !contains(line, #[trigger] skips[j])
}

/// The lines of `ls` that are kept, in their original order.
pub open spec fn kept(ls: Seq<Seq<char>>, skips: Seq<Seq<char>>) -> Seq<Seq<char>>
    decreases ls.len(),
{
    if ls.len() == 0 {
        ls
    } else if keeps(ls.last(), skips) {
        kept(ls.drop_last(), skips).push(ls.last())
    } else {
        kept(ls.drop_last(), skips)
    }
}

/// The lines of `ls` joined by single newlines.
pub open spec fn join(ls: Seq<Seq<char>>) -> Seq<char>
    decreases ls.len(),
{
    if ls.len() == 0 {
        Seq::<char>::empty()
    } else if ls.len() == 1 {
        ls[0]
    } else {
        join(ls.drop_last()) + seq!['\n'] + ls.last()
    }
}

/// The text that remains of `t` once every line containing one of `skips`
/// is dropped. With no skip substrings the text is left exactly as it was.
pub open spec fn filtered(t: Seq<char>, skips: Seq<Seq<char>>) -> Seq<char> {
    if skips.len() == 0 {
        t
    } else {
        join(kept(lines(t), skips))
    }
}

/// Relies on String::push: appends one character to the end of the string.
#[verifier::external_body]
pub(crate) fn push_char(s: &mut String, c: char)
    ensures
        final(s)@ == old(s)@.push(c),
{
    s.push(c)
}

/// Relies on str::contains with a `&str` pattern: true when the pattern
/// occurs as a contiguous sub-slice of the string.
#[verifier::external_body]
fn str_contains(hay: &str, needle: &str) -> (r: bool)
    ensures
        r == contains(hay@, needle@),
{
    hay.contains(needle)
}

/// Whether `line` contains none of `skips`.
pub fn line_is_kept(line: &str, skips: &Vec<String>) -> (r: bool)
    ensures
        r == keeps(line@, skips.deep_view()),
{
    let mut j: usize = 0;
    while j < skips.len()
        invariant
            j <= skips.len(),
            forall|k: int| 0 <= k < j ==> !contains(line@, #[trigger] skips.deep_view()[k]),
        decreases skips.len() - j,
    {
        if str_contains(line, skips[j].as_str()) {
            assert(contains(line@, skips.deep_view()[j as int]));
            return false;
        }
        j = j + 1;
    }
    true
}

/// The ghost state of a scan over a prefix of a text: the pieces seen so far,
/// the current piece held as `cur` plus a carriage return not yet written,
/// and the output for the lines already completed.
pub open spec fn scan_state(
    prefix: Seq<char>,
    cur: Seq<char>,
    pending_cr: bool,
    out: Seq<char>,
    any: bool,
    skips: Seq<Seq<char>>,
) -> bool {
    let p = pieces(prefix);
    let done = p.drop_last().map_values(|l: Seq<char>| strip_cr(l));
    &&& p.last() == (if pending_cr { cur.push('\r') } else { cur })
    &&& !pending_cr ==> (cur.len() == 0 || cur.last() != '\r')
    &&& out == join(kept(done, skips))
    &&& any == (kept(done, skips).len() > 0)
}

proof fn lemma_pieces_nonempty(s: Seq<char>)
    ensures
        pieces(s).len() >= 1,
    decreases s.len(),
{
    if s.len() > 0 {
        lemma_pieces_nonempty(s.drop_last());
    }
}

proof fn lemma_kept_push(ls: Seq<Seq<char>>, x: Seq<char>, skips: Seq<Seq<char>>)
    ensures
        kept(ls.push(x), skips) == (if keeps(x, skips) {
            kept(ls, skips).push(x)
        } else {
            kept(ls, skips)
        }),
{
    assert(ls.push(x).drop_last() =~= ls);
}

proof fn lemma_join_push(ls: Seq<Seq<char>>, x: Seq<char>)
    ensures
        join(ls.push(x)) == (if ls.len() == 0 {
            x
        } else {
            join(ls) + seq!['\n'] + x
        }),
{
    assert(ls.push(x).drop_last() =~= ls);
}

/// Appends `line` as the next completed line of the output, when it is kept.
fn emit_line(out: &mut String, any: &mut bool, line: &str, skips: &Vec<String>)
    ensures
        ({
            let k = keeps(line@, skips.deep_view());
            &&& final(out)@ == (if !k {
                old(out)@
            } else if *old(any) {
                old(out)@ + seq!['\n'] + line@
            } else {
                line@
            })
            &&& *final(any) == (*old(any) || k)
        }),
{
    if line_is_kept(line, skips) {
        if *any {
            push_char(out, '\n');
            out.append(line);
        } else {
            *out = line.to_string();
        }
        *any = true;
    }
}

/// Drops every line of `text` that contains one of `skips` and joins the
/// remaining lines with single newlines. With no skip substrings the text is
/// returned unchanged.
pub fn filter_lines(text: &str, skips: &Vec<String>) -> (r: String)
    ensures
        r@ == filtered(text@, skips.deep_view()),
{
    if skips.len() == 0 {
        return text.to_string();
    }
    let ghost sk = skips.deep_view();
    let mut out = String::new();
    let mut any = false;
    let mut cur = String::new();
    let mut pending_cr = false;
    proof {
        assert(pieces(text@.take(0)) =~= seq![Seq::<char>::empty()]);
        assert(pieces(text@.take(0)).drop_last().map_values(|l: Seq<char>| strip_cr(l)) =~= Seq::<Seq<char>>::empty());
        assert(cur@ =~= Seq::<char>::empty());
    }
    for c in it: text.chars()
        invariant
            it.seq() == text@,
            scan_state(text@.take(it.index() as int), cur@, pending_cr, out@, any, sk),
            sk == skips.deep_view(),
    {
        let ghost prefix = text@.take(it.index() as int);
        let ghost next = text@.take(it.index() + 1);
        proof {
            lemma_pieces_nonempty(prefix);
            assert(next.drop_last() =~= prefix);
            assert(next.last() == c);
        }
        if c == '\n' {
            if pending_cr {
                assert(strip_cr(cur@.push('\r')) =~= cur@);
            }
            let ghost p = pieces(prefix);
            proof {
                assert(pieces(next) == p.push(Seq::<char>::empty()));
                assert(pieces(next).drop_last().map_values(|l: Seq<char>| strip_cr(l)) =~= p.drop_last().map_values(|l: Seq<char>| strip_cr(l)).push(cur@));
                lemma_kept_push(p.drop_last().map_values(|l: Seq<char>| strip_cr(l)), cur@, sk);
                lemma_join_push(kept(p.drop_last().map_values(|l: Seq<char>| strip_cr(l)), sk), cur@);
            }
            emit_line(&mut out, &mut any, cur.as_str(), skips);
            cur = String::new();
            pending_cr = false;
            assert(cur@ =~= Seq::<char>::empty());
            assert(pieces(next).last() =~= cur@);
        } else {
            let ghost p = pieces(prefix);
            proof {
                assert(pieces(next) == p.update(p.len() - 1, p.last().push(c)));
                assert(pieces(next).drop_last() =~= p.drop_last());
            }
            if pending_cr {
                push_char(&mut cur, '\r');
            }
            if c == '\r' {
                pending_cr = true;
            } else {
                push_char(&mut cur, c);
                pending_cr = false;
            }
        }
    }
    let ghost p = pieces(text@);
    proof {
        lemma_pieces_nonempty(text@);
        assert(text@.take(text@.len() as int) =~= text@);
    }
    if pending_cr {
        push_char(&mut cur, '\r');
    }
    if !cur.as_str().is_empty() {
        proof {
            lemma_kept_push(p.drop_last().map_values(|l: Seq<char>| strip_cr(l)), cur@, sk);
            lemma_join_push(kept(p.drop_last().map_values(|l: Seq<char>| strip_cr(l)), sk), cur@);
        }
        emit_line(&mut out, &mut any, cur.as_str(), skips);
    }
    out
}

/// Where each kept line stands among `ls`: strictly increasing positions,
/// one per kept line, covering every line of `ls` that is kept.
pub proof fn kept_positions(ls: Seq<Seq<char>>, skips: Seq<Seq<char>>) -> (idx: Seq<int>)
    ensures
        idx.len() == kept(ls, skips).len(),
        forall|k: int| 0 <= k < idx.len() ==> 0 <= #[trigger] idx[k] < ls.len() && kept(ls, skips)[k] == ls[idx[k]],
        forall|k1: int, k2: int| 0 <= k1 < k2 < idx.len() ==> #[trigger] idx[k1] < #[trigger] idx[k2],
        forall|i: int| 0 <= i < ls.len() && keeps(#[trigger] ls[i], skips) ==> exists|k: int| 0 <= k < idx.len() && idx[k] == i,
    decreases ls.len(),
{
    if ls.len() == 0 {
        seq![]
    } else {
        let prev = kept_positions(ls.drop_last(), skips);
        let n = ls.len() - 1;
        if keeps(ls.last(), skips) {
            let idx = prev.push(n);
            assert forall|i: int| 0 <= i < ls.len() && keeps(#[trigger] ls[i], skips) implies exists|k: int| 0 <= k < idx.len() && idx[k] == i by {
                if i < n {
                    assert(ls.drop_last()[i] == ls[i]);
                    let k = choose|k: int| 0 <= k < prev.len() && prev[k] == i;
                    assert(idx[k] == i);
                } else {
                    assert(idx[prev.len() as int] == i);
                }
            }
            assert forall|k: int| 0 <= k < idx.len() implies 0 <= #[trigger] idx[k] < ls.len() && kept(ls, skips)[k] == ls[idx[k]] by {
                if k < prev.len() {
                    assert(ls.drop_last()[prev[k]] == ls[prev[k]]);
                }
            }
            idx
        } else {
            assert forall|i: int| 0 <= i < ls.len() && keeps(#[trigger] ls[i], skips) implies exists|k: int| 0 <= k < prev.len() && prev[k] == i by {
                assert(i < n);
                assert(ls.drop_last()[i] == ls[i]);
            }
            assert forall|k: int| 0 <= k < prev.len() implies 0 <= #[trigger] prev[k] < ls.len() && kept(ls, skips)[k] == ls[prev[k]] by {
                assert(ls.drop_last()[prev[k]] == ls[prev[k]]);
            }
            prev
        }
    }
}

/// With no skip substrings the text is left exactly as it was.
pub proof fn lemma_no_skips_is_identity(t: Seq<char>)
    ensures
        filtered(t, Seq::<Seq<char>>::empty()) == t,
{
}

/// The output joins, in order, the lines of `t` that contain no skip
/// substring: each of those lines contains none of `skips`, each line of `t`
/// that contains none of them is among those lines, and they keep the order
/// in which they stand in `t`.
pub proof fn lemma_filter_keeps_exactly_clean_lines(t: Seq<char>, skips: Seq<Seq<char>>)
    requires
        skips.len() > 0,
    ensures
        ({
            let ls = lines(t);
            let k = kept(ls, skips);
            &&& filtered(t, skips) == join(k)
            &&& forall|i: int, j: int| 0 <= i < k.len() && 0 <= j < skips.len() ==> !contains(#[trigger] k[i], #[trigger] skips[j])
            &&& exists|idx: Seq<int>| {
                &&& idx.len() == k.len()
                &&& forall|a: int| 0 <= a < idx.len() ==> 0 <= #[trigger] idx[a] < ls.len() && k[a] == ls[idx[a]]
                &&& forall|a: int, b: int| 0 <= a < b < idx.len() ==> #[trigger] idx[a] < #[trigger] idx[b]
                &&& forall|i: int| 0 <= i < ls.len() && keeps(#[trigger] ls[i], skips) ==> exists|a: int| 0 <= a < idx.len() && idx[a] == i
            }
        }),
{
    let ls = lines(t);
    let k = kept(ls, skips);
    let idx = kept_positions(ls, skips);
    assert forall|i: int, j: int| 0 <= i < k.len() && 0 <= j < skips.len() implies !contains(#[trigger] k[i], #[trigger] skips[j]) by {
        assert(k[i] == ls[idx[i]]);
        assert(keeps(ls[idx[i]], skips)) by {
            lemma_kept_all_keep(ls, skips, i);
        }
    }
}

proof fn lemma_kept_all_keep(ls: Seq<Seq<char>>, skips: Seq<Seq<char>>, i: int)
    requires
        0 <= i < kept(ls, skips).len(),
    ensures
        keeps(kept(ls, skips)[i], skips),
    decreases ls.len(),
{
    if ls.len() > 0 {
        let prev = kept(ls.drop_last(), skips);
        if i < prev.len() {
            lemma_kept_all_keep(ls.drop_last(), skips, i);
        }
    }
}

/// Every line that a filter joins, except the last, ends in something other
/// than a carriage return; and when two or more are joined the last is not
/// empty. Joined lines are read back as the same lines exactly then.
pub open spec fn rejoins_cleanly(k: Seq<Seq<char>>) -> bool {
    &&& forall|i: int| 0 <= i < k.len() - 1 ==> strip_cr(#[trigger] k[i]) == k[i]
    &&& (k.len() < 2 || k.last().len() > 0)
}

/// No line holds a newline character.
pub open spec fn no_newlines(k: Seq<Seq<char>>) -> bool {
    forall|i: int, j: int| 0 <= i < k.len() && 0 <= j < k[i].len() ==> #[trigger] k[i][j] != '\n'
}

proof fn lemma_pieces_no_newlines(s: Seq<char>)
    ensures
        pieces(s).len() >= 1,
        no_newlines(pieces(s)),
    decreases s.len(),
{
    if s.len() > 0 {
        lemma_pieces_no_newlines(s.drop_last());
        let p = pieces(s.drop_last());
        if s.last() != '\n' {
            let q = p.update(p.len() - 1, p.last().push(s.last()));
            assert forall|i: int, j: int| 0 <= i < q.len() && 0 <= j < q[i].len() implies #[trigger] q[i][j] != '\n' by {
                if i == p.len() - 1 && j < p.last().len() {
                    assert(q[i][j] == p[i][j]);
                }
            }
        } else {
            let q = p.push(Seq::<char>::empty());
            assert forall|i: int, j: int| 0 <= i < q.len() && 0 <= j < q[i].len() implies #[trigger] q[i][j] != '\n' by {
                assert(q[i] == p[i]);
            }
        }
    }
}

proof fn lemma_lines_no_newlines(s: Seq<char>)
    ensures
        no_newlines(lines(s)),
{
    lemma_pieces_no_newlines(s);
    let p = pieces(s);
    let ls = lines(s);
    assert forall|i: int, j: int| 0 <= i < ls.len() && 0 <= j < ls[i].len() implies #[trigger] ls[i][j] != '\n' by {
        if i < p.len() - 1 {
            assert(ls[i] == strip_cr(p[i]));
            assert(ls[i][j] == p[i][j]);
        } else {
            assert(ls[i] == p[i]);
        }
    }
}

/// Appending text without newlines extends the last piece.
proof fn lemma_pieces_extend(a: Seq<char>, b: Seq<char>)
    requires
        forall|j: int| 0 <= j < b.len() ==> b[j] != '\n',
    ensures
        pieces(a + b) == pieces(a).update(pieces(a).len() - 1, pieces(a).last() + b),
    decreases b.len(),
{
    lemma_pieces_nonempty(a);
    if b.len() == 0 {
        assert(a + b =~= a);
        assert(pieces(a).last() + b =~= pieces(a).last());
        assert(pieces(a).update(pieces(a).len() - 1, pieces(a).last()) =~= pieces(a));
    } else {
        let b0 = b.drop_last();
        lemma_pieces_extend(a, b0);
        assert((a + b).drop_last() =~= a + b0);
        assert((a + b).last() == b.last());
        assert(pieces(a).last() + b0 + seq![b.last()] =~= pieces(a).last() + b);
        let p = pieces(a + b0);
        assert(p.last() == pieces(a).last() + b0);
        assert(p.last().push(b.last()) =~= pieces(a).last() + b);
        assert(p.len() == pieces(a).len());
        assert(p.update(p.len() - 1, p.last().push(b.last())) =~= pieces(a).update(pieces(a).len() - 1, pieces(a).last() + b));
    }
}

proof fn lemma_pieces_of_join(k: Seq<Seq<char>>)
    requires
        k.len() >= 1,
        no_newlines(k),
    ensures
        pieces(join(k)) == k,
    decreases k.len(),
{
    assert(pieces(Seq::<char>::empty()) =~= seq![Seq::<char>::empty()]);
    if k.len() == 1 {
        assert forall|j: int| 0 <= j < k[0].len() implies k[0][j] != '\n' by {}
        lemma_pieces_extend(Seq::<char>::empty(), k[0]);
        assert(Seq::<char>::empty() + k[0] =~= k[0]);
        assert(seq![Seq::<char>::empty()].update(0, Seq::<char>::empty() + k[0]) =~= k);
    } else {
        let k0 = k.drop_last();
        assert forall|i: int, j: int| 0 <= i < k0.len() && 0 <= j < k0[i].len() implies #[trigger] k0[i][j] != '\n' by {
            assert(k0[i] == k[i]);
        }
        lemma_pieces_of_join(k0);
        let a = join(k0) + seq!['\n'];
        assert(a.drop_last() =~= join(k0));
        assert(pieces(a) == k0.push(Seq::<char>::empty()));
        assert forall|j: int| 0 <= j < k.last().len() implies k.last()[j] != '\n' by {
            assert(k[k.len() - 1][j] != '\n');
        }
        lemma_pieces_extend(a, k.last());
        assert(Seq::<char>::empty() + k.last() =~= k.last());
        assert(k0.push(Seq::<char>::empty()).update(k0.len() as int, Seq::<char>::empty() + k.last()) =~= k);
    }
}

proof fn lemma_kept_when_all_keep(k: Seq<Seq<char>>, skips: Seq<Seq<char>>)
    requires
        forall|i: int| 0 <= i < k.len() ==> keeps(#[trigger] k[i], skips),
    ensures
        kept(k, skips) == k,
    decreases k.len(),
{
    if k.len() > 0 {
        let k0 = k.drop_last();
        assert forall|i: int| 0 <= i < k0.len() implies keeps(#[trigger] k0[i], skips) by {
            assert(k0[i] == k[i]);
        }
        lemma_kept_when_all_keep(k0, skips);
        assert(keeps(k[k.len() - 1], skips));
        assert(k0.push(k.last()) =~= k);
    }
}

/// Filtering a second time with the same skip substrings changes nothing,
/// whenever the lines that the first pass keeps are read back as the same
/// lines (see `rejoins_cleanly`; otherwise a line kept by the first pass
/// loses a final carriage return, or a final empty line is dropped).
pub proof fn lemma_filter_idempotent(t: Seq<char>, skips: Seq<Seq<char>>)
    requires
        skips.len() == 0 || rejoins_cleanly(kept(lines(t), skips)),
    ensures
        filtered(filtered(t, skips), skips) == filtered(t, skips),
{
    if skips.len() > 0 {
        let ls = lines(t);
        let k = kept(ls, skips);
        let idx = kept_positions(ls, skips);
        lemma_lines_no_newlines(t);
        assert forall|i: int, j: int| 0 <= i < k.len() && 0 <= j < k[i].len() implies #[trigger] k[i][j] != '\n' by {
            assert(k[i] == ls[idx[i]]);
        }
        assert forall|i: int| 0 <= i < k.len() implies keeps(#[trigger] k[i], skips) by {
            lemma_kept_all_keep(ls, skips, i);
        }
        let u = join(k);
        if k.len() == 0 {
            assert(pieces(u) =~= seq![Seq::<char>::empty()]);
            assert(lines(u) =~= Seq::<Seq<char>>::empty());
        } else if k.len() == 1 && k[0].len() == 0 {
            assert(pieces(u) =~= seq![Seq::<char>::empty()]);
            assert(lines(u) =~= Seq::<Seq<char>>::empty());
        } else {
            lemma_pieces_of_join(k);
            assert(k.drop_last().map_values(|l: Seq<char>| strip_cr(l)) =~= k.drop_last());
            assert(k.drop_last().push(k.last()) =~= k);
            assert(lines(u) == k);
            lemma_kept_when_all_keep(k, skips);
        }
    }
}

} // verus!
