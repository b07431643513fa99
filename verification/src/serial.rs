//! A canonical serializer for the mini-language.
//!
//! Every key and value is written as an unquoted token in which each
//! special character (space, colon, quote, backslash) is preceded by an
//! escaping backslash; pairs are joined with single spaces.  [`esc`] and
//! [`pairs_enc`] are the specification of that encoding, and
//! [`serialize`] is the verified encoder.  Re-parsing such an encoding is
//! proved to reproduce the mapping in [`crate::laws`].

use vstd::prelude::*;

use crate::form_map::{pair_views, FormMap};

verus! {

/// The characters that drive transitions of the machine; every other
/// character only ever extends the current buffer.
pub open spec fn is_special(c: char) -> bool {
    c == ' ' || c == ':' || c == '"' || c == '\\'
}

/// The canonical escaped encoding of a token: each special character is
/// preceded by a backslash, every other character stands for itself.
pub open spec fn esc(s: Seq<char>) -> Seq<char>
    decreases s.len(),
{
    if s.len() == 0 {
        Seq::empty()
    } else if is_special(s[0]) {
        seq!['\\', s[0]] + esc(s.drop_first())
    } else {
        seq![s[0]] + esc(s.drop_first())
    }
}

/// Escaping distributes over concatenation.
pub proof fn lemma_esc_concat(a: Seq<char>, b: Seq<char>)
    ensures
        esc(a + b) == esc(a) + esc(b),
    decreases a.len(),
{
    if a.len() == 0 {
        assert(a + b =~= b);
        assert(esc(a) + esc(b) =~= esc(b));
    } else {
        assert((a + b).drop_first() =~= a.drop_first() + b);
        lemma_esc_concat(a.drop_first(), b);
        if is_special(a[0]) {
            assert(seq!['\\', a[0]] + (esc(a.drop_first()) + esc(b)) =~= (seq!['\\', a[0]] + esc(
                a.drop_first(),
            )) + esc(b));
        } else {
            assert(seq![a[0]] + (esc(a.drop_first()) + esc(b)) =~= (seq![a[0]] + esc(
                a.drop_first(),
            )) + esc(b));
        }
    }
}

/// The canonical encoding of one pair: escaped key, colon, escaped value.
pub open spec fn pair_enc(p: (Seq<char>, Seq<char>)) -> Seq<char> {
    esc(p.0) + seq![':'] + esc(p.1)
}

/// The canonical encoding of a sequence of pairs, joined by single spaces.
pub open spec fn pairs_enc(ps: Seq<(Seq<char>, Seq<char>)>) -> Seq<char>
    decreases ps.len(),
{
    if ps.len() == 0 {
        Seq::empty()
    } else if ps.len() == 1 {
        pair_enc(ps[0])
    } else {
        pair_enc(ps[0]) + seq![' '] + pairs_enc(ps.drop_first())
    }
}

/// Appending a pair appends a space and that pair's encoding.
pub proof fn lemma_pairs_enc_push(ps: Seq<(Seq<char>, Seq<char>)>, p: (Seq<char>, Seq<char>))
    requires
        ps.len() > 0,
    ensures
        pairs_enc(ps.push(p)) == pairs_enc(ps) + seq![' '] + pair_enc(p),
    decreases ps.len(),
{
    if ps.len() == 1 {
        assert(ps.push(p)[0] == ps[0]);
        assert(ps.push(p).drop_first() =~= seq![p]);
        assert(pairs_enc(seq![p]) == pair_enc(p));
    } else {
        assert(ps.push(p).drop_first() =~= ps.drop_first().push(p));
        lemma_pairs_enc_push(ps.drop_first(), p);
        assert(pair_enc(ps[0]) + seq![' '] + (pairs_enc(ps.drop_first()) + seq![' '] + pair_enc(p))
            =~= (pair_enc(ps[0]) + seq![' '] + pairs_enc(ps.drop_first())) + seq![' '] + pair_enc(
            p,
        ));
    }
}

/// Append the escaped encoding of a token to `out`.
fn push_escaped(out: &mut Vec<char>, t: &Vec<char>)
    ensures
        final(out)@ == old(out)@ + esc(t@),
{
    let n = t.len();
    for i in 0..n
        invariant
            n == t@.len(),
            out@ == old(out)@ + esc(t@.take(i as int)),
    {
        let c = t[i];
        if c == ' ' || c == ':' || c == '"' || c == '\\' {
            out.push('\\');
        }
        out.push(c);
        proof {
            let s1 = seq![t@[i as int]];
            assert(t@.take(i + 1) =~= t@.take(i as int) + s1);
            lemma_esc_concat(t@.take(i as int), s1);
            assert(s1.len() == 1 && s1[0] == c);
            assert(s1.drop_first() =~= Seq::<char>::empty());
            assert(esc(s1.drop_first()) == Seq::<char>::empty());
            if is_special(c) {
                assert(esc(s1) == seq!['\\', s1[0]] + esc(s1.drop_first()));
                assert(esc(s1) =~= seq!['\\', c]);
                assert(out@ =~= old(out)@ + esc(t@.take(i + 1)));
            } else {
                assert(esc(s1) == seq![s1[0]] + esc(s1.drop_first()));
                assert(esc(s1) =~= seq![c]);
                assert(out@ =~= old(out)@ + esc(t@.take(i + 1)));
            }
        }
    }
    proof {
        assert(t@.take(n as int) =~= t@);
    }
}

/// Write a mapping back out in the canonical encoding: pairs in entry
/// order, single spaces between pairs, every special character escaped.
pub fn serialize(m: &FormMap) -> (out: Vec<char>)
    ensures
        out@ == pairs_enc(pair_views(m.entries@)),
{
    let mut out: Vec<char> = Vec::new();
    let n = m.entries.len();
    for i in 0..n
        invariant
            n == m.entries@.len(),
            out@ == pairs_enc(pair_views(m.entries@).take(i as int)),
    {
        let ghost pvs = pair_views(m.entries@);
        if i > 0 {
            out.push(' ');
        }
        push_escaped(&mut out, &m.entries[i].0);
        out.push(':');
        push_escaped(&mut out, &m.entries[i].1);
        proof {
            let p = pvs[i as int];
            assert(pair_enc(p) =~= esc(p.0) + seq![':'] + esc(p.1));
            if i == 0 {
                assert(pvs.take(1) =~= seq![p]);
                assert(out@ =~= pair_enc(p));
            } else {
                assert(pvs.take(i + 1) =~= pvs.take(i as int).push(p));
                lemma_pairs_enc_push(pvs.take(i as int), p);
                assert(out@ =~= pairs_enc(pvs.take(i as int)) + seq![' '] + pair_enc(p));
            }
        }
    }
    proof {
        assert(pair_views(m.entries@).take(n as int) =~= pair_views(m.entries@));
    }
    out
}

} // verus!
