//! Fuzzy title matching and title ordering.
//!
//! Titles are matched against a query by whole-word trigram overlap,
//! case-insensitive and insensitive to word order: each maximal run of word
//! bytes is lowercased and padded with two leading and one trailing space,
//! every three-byte window of a padded word is a trigram, and two strings
//! are similar when more than forty percent of their combined distinct
//! trigrams are shared. With `i` shared trigrams out of `na` and `nb`
//! distinct ones, `na + nb - i` counts the distinct trigrams of both
//! strings together, so the test `5 * i > 2 * (na + nb - i)` compares the
//! overlap against the two-fifths threshold without fractions.
//!
//! Titles are ordered lexicographically by code point.

use vstd::prelude::*;
use vstd::seq_lib::*;
use vstd::set_lib::*;

verus! {

broadcast use vstd::set::group_set_axioms, vstd::seq::group_seq_axioms,
    vstd::seq_lib::group_seq_properties;

/// A three-byte window of a padded word.
pub type Trigram = (u8, u8, u8);

/// Digits, ASCII letters and all non-ASCII bytes form words.
pub open spec fn is_word_byte(b: u8) -> bool {
    (48 <= b && b <= 57) || (65 <= b && b <= 90) || (97 <= b && b <= 122) || b >= 128
}

/// ASCII uppercase folded to lowercase; everything else unchanged.
pub open spec fn lower_byte(b: u8) -> u8 {
    if 65 <= b && b <= 90 {
        (b + 32) as u8
    } else {
        b
    }
}

/// A pending word, emitted if it is nonempty.
pub open spec fn emit_word(cur: Seq<u8>) -> Seq<Seq<u8>> {
    if cur.len() > 0 {
        seq![cur]
    } else {
        Seq::empty()
    }
}

/// The lowercased words of `s` after the pending word `cur`.
pub open spec fn words_acc(s: Seq<u8>, cur: Seq<u8>) -> Seq<Seq<u8>>
    decreases s.len(),
{
    if s.len() == 0 {
        emit_word(cur)
    } else if is_word_byte(s[0]) {
        words_acc(s.drop_first(), cur.push(lower_byte(s[0])))
    } else {
        emit_word(cur) + words_acc(s.drop_first(), Seq::empty())
    }
}

/// The maximal runs of word bytes in `s`, lowercased, in order.
pub open spec fn words(s: Seq<u8>) -> Seq<Seq<u8>> {
    words_acc(s, Seq::empty())
}

/// One word padded with two spaces before and one after.
pub open spec fn padded_word(w: Seq<u8>) -> Seq<u8> {
    seq![32u8, 32u8] + w + seq![32u8]
}

/// The three-byte window of the padded word starting at `i`.
pub open spec fn trigram_at(w: Seq<u8>, i: int) -> Trigram {
    (padded_word(w)[i], padded_word(w)[i + 1], padded_word(w)[i + 2])
}

/// The trigrams of one word: every three-byte window of the padded word.
pub open spec fn word_trigrams(w: Seq<u8>) -> Seq<Trigram> {
    Seq::new((w.len() + 1) as nat, |i: int| trigram_at(w, i))
}

/// Spells out the three bytes of the window at `i`.
proof fn lemma_trigram_at(w: Seq<u8>, i: int)
    ensures
        trigram_at(w, i) == (padded_word(w)[i], padded_word(w)[i + 1], padded_word(w)[i + 2]),
{
}

/// The trigrams of a list of words, concatenated.
pub open spec fn trigrams_of_words(ws: Seq<Seq<u8>>) -> Seq<Trigram>
    decreases ws.len(),
{
    if ws.len() == 0 {
        Seq::empty()
    } else {
        word_trigrams(ws[0]) + trigrams_of_words(ws.drop_first())
    }
}

/// All trigrams of `s`, word by word.
pub open spec fn trigram_seq(s: Seq<u8>) -> Seq<Trigram> {
    trigrams_of_words(words(s))
}

/// The distinct trigrams of `s`.
pub open spec fn trigram_set(s: Seq<u8>) -> Set<Trigram> {
    trigram_seq(s).to_set()
}

/// Whether the shared distinct trigrams of `a` and `b` exceed two fifths
/// of their combined distinct trigrams.
pub open spec fn similar(a: Seq<u8>, b: Seq<u8>) -> bool {
    let ia = trigram_set(a).intersect(trigram_set(b)).len() as int;
    let na = trigram_set(a).len() as int;
    let nb = trigram_set(b).len() as int;
    5 * ia > 2 * (na + nb - ia)
}

/// Code-point lexicographic order on character sequences.
pub open spec fn lex_le(a: Seq<char>, b: Seq<char>) -> bool
    decreases a.len(),
{
    if a.len() == 0 {
        true
    } else if b.len() == 0 {
        false
    } else if (a[0] as u32) < (b[0] as u32) {
        true
    } else if (a[0] as u32) > (b[0] as u32) {
        false
    } else {
        lex_le(a.drop_first(), b.drop_first())
    }
}

/// The lexicographic order relates every pair of character sequences one
/// way or the other.
pub proof fn lemma_lex_le_total(a: Seq<char>, b: Seq<char>)
    ensures
        lex_le(a, b) || lex_le(b, a),
    decreases a.len(),
{
    if a.len() == 0 || b.len() == 0 {
    } else if (a[0] as u32) == (b[0] as u32) {
        lemma_lex_le_total(a.drop_first(), b.drop_first());
    }
}

fn is_word_byte_exec(b: u8) -> (r: bool)
    ensures
        r == is_word_byte(b),
{
    (48 <= b && b <= 57) || (65 <= b && b <= 90) || (97 <= b && b <= 122) || b >= 128
}

/// Splits `s` into its lowercased words.
fn split_words(s: &[u8]) -> (ws: Vec<Vec<u8>>)
    ensures
        ws.deep_view() == words(s@),
{
    let mut ws: Vec<Vec<u8>> = Vec::new();
    let mut cur: Vec<u8> = Vec::new();
    let mut i: usize = 0;
    proof {
        assert(s@.skip(0) =~= s@);
        assert(ws.deep_view() =~= Seq::<Seq<u8>>::empty());
    }
    while i < s.len()
        invariant
            i <= s@.len(),
            words(s@) == ws.deep_view() + words_acc(s@.skip(i as int), cur@),
        decreases s@.len() - i,
    {
        let ghost pre_ws = ws.deep_view();
        let ghost pre_cur = cur@;
        let ghost rest = s@.skip(i as int);
        let b = s[i];
        proof {
            assert(rest.len() > 0);
            assert(rest[0] == s@[i as int]);
            assert(rest.drop_first() =~= s@.skip(i as int + 1));
        }
        if is_word_byte_exec(b) {
            let lb = if 65 <= b && b <= 90 {
                b + 32
            } else {
                b
            };
            cur.push(lb);
            proof {
                assert(words_acc(rest, pre_cur) == words_acc(
                    s@.skip(i as int + 1),
                    pre_cur.push(lower_byte(b)),
                ));
            }
        } else {
            if cur.len() > 0 {
                ws.push(cur);
                cur = Vec::new();
                proof {
                    assert forall|k: int| 0 <= k < ws@.len() implies ws.deep_view()[k]
                        == pre_ws.push(pre_cur)[k] by {
                    }
                    assert(ws.deep_view() =~= pre_ws.push(pre_cur));
                }
            }
            proof {
                assert(words_acc(rest, pre_cur) == emit_word(pre_cur) + words_acc(
                    s@.skip(i as int + 1),
                    Seq::empty(),
                ));
                assert(ws.deep_view() =~= pre_ws + emit_word(pre_cur));
                assert((pre_ws + emit_word(pre_cur)) + words_acc(s@.skip(i as int + 1), Seq::empty())
                    =~= pre_ws + (emit_word(pre_cur) + words_acc(
                    s@.skip(i as int + 1),
                    Seq::empty(),
                )));
            }
        }
        i += 1;
    }
    proof {
        assert(s@.skip(i as int) =~= Seq::<u8>::empty());
        assert(s@.skip(i as int).len() == 0);
    }
    let ghost pre_ws = ws.deep_view();
    let ghost pre_cur = cur@;
    if cur.len() > 0 {
        ws.push(cur);
        proof {
            assert forall|k: int| 0 <= k < ws@.len() implies ws.deep_view()[k] == pre_ws.push(
                pre_cur,
            )[k] by {
            }
            assert(ws.deep_view() =~= pre_ws.push(pre_cur));
            assert(pre_ws + emit_word(pre_cur) =~= pre_ws.push(pre_cur));
        }
    } else {
        proof {
            assert(pre_ws + emit_word(pre_cur) =~= pre_ws);
        }
    }
    ws
}

/// The trigrams of one word.
fn word_trigrams_exec(w: &Vec<u8>) -> (ts: Vec<Trigram>)
    ensures
        ts@ == word_trigrams(w@),
{
    let mut padded: Vec<u8> = Vec::new();
    padded.push(32);
    padded.push(32);
    let mut k: usize = 0;
    while k < w.len()
        invariant
            k <= w@.len(),
            padded@ =~= seq![32u8, 32u8] + w@.take(k as int),
        decreases w@.len() - k,
    {
        padded.push(w[k]);
        proof {
            assert(w@.take(k as int + 1) =~= w@.take(k as int).push(w@[k as int]));
        }
        k += 1;
    }
    proof {
        assert(w@.take(w@.len() as int) =~= w@);
    }
    padded.push(32);
    proof {
        assert(padded@ =~= padded_word(w@));
    }
    let mut ts: Vec<Trigram> = Vec::new();
    let n = w.len();
    let pl = padded.len();
    proof {
        assert(pl == n + 3);
    }
    let mut i: usize = 0;
    while i <= n
        invariant
            n == w@.len(),
            pl == n + 3,
            padded@ == padded_word(w@),
            padded@.len() == n + 3,
            i <= n + 1,
            ts@ =~= word_trigrams(w@).take(i as int),
        decreases n + 1 - i,
    {
        ts.push((padded[i], padded[i + 1], padded[i + 2]));
        proof {
            assert(word_trigrams(w@).take(i as int + 1) =~= word_trigrams(w@).take(
                i as int,
            ).push(word_trigrams(w@)[i as int]));
            assert(word_trigrams(w@)[i as int] == trigram_at(w@, i as int));
            lemma_trigram_at(w@, i as int);
        }
        i += 1;
    }
    proof {
        assert(word_trigrams(w@).take(i as int) =~= word_trigrams(w@));
    }
    ts
}

/// Extending a word list extends its trigram concatenation on the right.
proof fn lemma_trigrams_of_words_take(ws: Seq<Seq<u8>>, i: int)
    requires
        0 <= i < ws.len(),
    ensures
        trigrams_of_words(ws.take(i + 1)) =~= trigrams_of_words(ws.take(i)) + word_trigrams(
            ws[i],
        ),
    decreases i,
{
    let dw = ws.drop_first();
    if i == 0 {
        assert(ws.take(1) =~= seq![ws[0]]);
        assert(ws.take(0) =~= Seq::<Seq<u8>>::empty());
        assert(seq![ws[0]].drop_first() =~= Seq::<Seq<u8>>::empty());
        assert(trigrams_of_words(seq![ws[0]]) == word_trigrams(ws[0]) + trigrams_of_words(
            Seq::<Seq<u8>>::empty(),
        ));
        assert(trigrams_of_words(ws.take(1)) =~= trigrams_of_words(ws.take(0)) + word_trigrams(
            ws[0],
        ));
    } else {
        lemma_trigrams_of_words_take(dw, i - 1);
        assert(ws.take(i + 1).drop_first() =~= dw.take(i));
        assert(ws.take(i).drop_first() =~= dw.take(i - 1));
        assert(ws.take(i + 1)[0] == ws[0]);
        assert(ws.take(i)[0] == ws[0]);
        assert(trigrams_of_words(ws.take(i + 1)) == word_trigrams(ws[0]) + trigrams_of_words(
            dw.take(i),
        ));
        assert(trigrams_of_words(ws.take(i)) == word_trigrams(ws[0]) + trigrams_of_words(
            dw.take(i - 1),
        ));
        assert(dw[i - 1] == ws[i]);
        assert(word_trigrams(ws[0]) + (trigrams_of_words(dw.take(i - 1)) + word_trigrams(ws[i]))
            =~= (word_trigrams(ws[0]) + trigrams_of_words(dw.take(i - 1))) + word_trigrams(
            ws[i],
        ));
    }
}

/// All trigrams of `s`, in word order.
fn all_trigrams(s: &[u8]) -> (ts: Vec<Trigram>)
    ensures
        ts@ == trigram_seq(s@),
{
    let ws = split_words(s);
    let mut ts: Vec<Trigram> = Vec::new();
    let mut i: usize = 0;
    proof {
        assert(ws.deep_view().take(0) =~= Seq::<Seq<u8>>::empty());
    }
    while i < ws.len()
        invariant
            i <= ws@.len(),
            ws.deep_view() == words(s@),
            ws.deep_view().len() == ws@.len(),
            ts@ =~= trigrams_of_words(ws.deep_view().take(i as int)),
        decreases ws@.len() - i,
    {
        let mut wts = word_trigrams_exec(&ws[i]);
        proof {
            assert(ws.deep_view()[i as int] == ws@[i as int].deep_view());
            assert(ws@[i as int].deep_view() == ws@[i as int]@);
            lemma_trigrams_of_words_take(ws.deep_view(), i as int);
        }
        ts.append(&mut wts);
        i += 1;
    }
    proof {
        assert(ws.deep_view().take(i as int) =~= ws.deep_view());
    }
    ts
}

/// Whether `v` holds the trigram `t`.
fn contains_trigram(v: &Vec<Trigram>, t: Trigram) -> (r: bool)
    ensures
        r == v@.contains(t),
{
    let mut j: usize = 0;
    while j < v.len()
        invariant
            j <= v@.len(),
            forall|k: int| 0 <= k < j ==> v@[k] != t,
        decreases v@.len() - j,
    {
        let u = v[j];
        if u.0 == t.0 && u.1 == t.1 && u.2 == t.2 {
            proof {
                assert(v@[j as int] == t);
            }
            return true;
        }
        j += 1;
    }
    false
}

/// The distinct trigrams of `v`, keeping first occurrences.
fn dedup_trigrams(v: &Vec<Trigram>) -> (d: Vec<Trigram>)
    ensures
        d@.no_duplicates(),
        d@.to_set() == v@.to_set(),
{
    let mut d: Vec<Trigram> = Vec::new();
    let mut i: usize = 0;
    proof {
        assert(d@.to_set() =~= v@.take(0).to_set());
    }
    while i < v.len()
        invariant
            i <= v@.len(),
            d@.no_duplicates(),
            d@.to_set() =~= v@.take(i as int).to_set(),
        decreases v@.len() - i,
    {
        let t = v[i];
        let c = contains_trigram(&d, t);
        proof {
            assert(v@.take(i as int + 1) =~= v@.take(i as int).push(t));
        }
        if !c {
            let ghost pre = d@;
            d.push(t);
            proof {
                assert(d@ =~= pre.push(t));
                assert(d@.no_duplicates()) by {
                    assert(forall|k: int| 0 <= k < pre.len() ==> pre[k] != t);
                }
                assert forall|x: Trigram|
                    d@.to_set().contains(x) <==> v@.take(i as int + 1).to_set().contains(x) by {
                    assert(d@.to_set().contains(x) == d@.contains(x));
                    assert(v@.take(i as int + 1).to_set().contains(x) == v@.take(
                        i as int + 1,
                    ).contains(x));
                    assert(pre.to_set().contains(x) == pre.contains(x));
                    assert(v@.take(i as int).to_set().contains(x) == v@.take(i as int).contains(x));
                    assert(d@.contains(x) <==> (pre.contains(x) || x == t));
                    assert(v@.take(i as int + 1).contains(x) <==> (v@.take(i as int).contains(x)
                        || x == t));
                }
                assert(d@.to_set() =~= v@.take(i as int + 1).to_set());
            }
        } else {
            proof {
                assert(d@.contains(t));
                assert(d@.to_set().contains(t));
                assert(v@.take(i as int).to_set().contains(t));
                assert(v@.take(i as int).contains(t));
                assert forall|x: Trigram|
                    d@.to_set().contains(x) <==> v@.take(i as int + 1).to_set().contains(x) by {
                    assert(d@.to_set().contains(x) == d@.contains(x));
                    assert(v@.take(i as int + 1).to_set().contains(x) == v@.take(
                        i as int + 1,
                    ).contains(x));
                    assert(v@.take(i as int).to_set().contains(x) == v@.take(i as int).contains(x));
                    assert(v@.take(i as int + 1).contains(x) <==> (v@.take(i as int).contains(x)
                        || x == t));
                }
                assert(d@.to_set() =~= v@.take(i as int + 1).to_set());
            }
        }
        i += 1;
    }
    proof {
        assert(v@.take(v@.len() as int) =~= v@);
    }
    d
}

/// Counts the trigrams of `da` that `db` also holds; with `da` free of
/// duplicates, that is the cardinality of the intersection.
fn count_common(da: &Vec<Trigram>, db: &Vec<Trigram>) -> (n: usize)
    requires
        da@.no_duplicates(),
    ensures
        n == da@.to_set().intersect(db@.to_set()).len(),
        n <= da@.len(),
{
    let mut n: usize = 0;
    let mut i: usize = 0;
    proof {
        assert(da@.take(0).to_set().intersect(db@.to_set()) =~= Set::<Trigram>::empty());
    }
    while i < da.len()
        invariant
            i <= da@.len(),
            n <= i,
            da@.no_duplicates(),
            n == da@.take(i as int).to_set().intersect(db@.to_set()).len(),
        decreases da@.len() - i,
    {
        let t = da[i];
        let c = contains_trigram(db, t);
        proof {
            let pre = da@.take(i as int).to_set().intersect(db@.to_set());
            let post = da@.take(i as int + 1).to_set().intersect(db@.to_set());
            assert(da@.take(i as int + 1) =~= da@.take(i as int).push(t));
            assert(!da@.take(i as int).contains(t)) by {
                if da@.take(i as int).contains(t) {
                    let k = choose|k: int| 0 <= k < i && da@.take(i as int)[k] == t;
                    assert(da@[k] == da@[i as int]);
                }
            }
            if c {
                assert(post =~= pre.insert(t));
                assert(!pre.contains(t));
            } else {
                assert(post =~= pre);
            }
        }
        if c {
            n += 1;
        }
        i += 1;
    }
    proof {
        assert(da@.take(da@.len() as int) =~= da@);
        da@.unique_seq_to_set();
        lemma_len_intersect(da@.to_set(), db@.to_set());
    }
    n
}

/// Whether `a` and `b` are similar by whole-word trigram overlap.
pub fn similar_exec(a: &[u8], b: &[u8]) -> (r: bool)
    ensures
        r == similar(a@, b@),
{
    let ta = all_trigrams(a);
    let tb = all_trigrams(b);
    let da = dedup_trigrams(&ta);
    let db = dedup_trigrams(&tb);
    let ni = count_common(&da, &db);
    let na = da.len();
    let nb = db.len();
    proof {
        da@.unique_seq_to_set();
        db@.unique_seq_to_set();
        lemma_len_intersect(da@.to_set(), db@.to_set());
    }
    5 * (ni as u128) > 2 * ((na as u128) + (nb as u128) - (ni as u128))
}

/// Whether `a` comes at or before `b` in code-point lexicographic order.
pub fn lex_le_exec(a: &str, b: &str) -> (r: bool)
    ensures
        r == lex_le(a@, b@),
{
    let an = a.unicode_len();
    let bn = b.unicode_len();
    let mut i: usize = 0;
    loop
        invariant
            i <= an,
            i <= bn,
            an == a@.len(),
            bn == b@.len(),
            lex_le(a@, b@) == lex_le(a@.skip(i as int), b@.skip(i as int)),
        decreases an - i,
    {
        proof {
            assert(a@.skip(i as int).len() == an - i);
            assert(b@.skip(i as int).len() == bn - i);
        }
        if i >= an {
            return true;
        }
        if i >= bn {
            return false;
        }
        let ca = a.get_char(i);
        let cb = b.get_char(i);
        proof {
            assert(a@.skip(i as int)[0] == a@[i as int]);
            assert(b@.skip(i as int)[0] == b@[i as int]);
            assert(a@.skip(i as int).drop_first() =~= a@.skip(i as int + 1));
            assert(b@.skip(i as int).drop_first() =~= b@.skip(i as int + 1));
        }
        if (ca as u32) < (cb as u32) {
            return true;
        }
        if (ca as u32) > (cb as u32) {
            return false;
        }
        i += 1;
    }
}

} // verus!
