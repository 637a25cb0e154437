//! The fun commands: the Magic 8-Ball and the word scrambler.

use rand::rngs::{OsRng, SmallRng};
use rand::seq::SliceRandom;
use rand::SeedableRng;
use unicode_segmentation::UnicodeSegmentation;
use vstd::prelude::*;

verus! {

/// The texts of a list of string slices.
pub open spec fn strs(v: Seq<&str>) -> Seq<Seq<char>> {
    v.map_values(|s: &str| s@)
}

/// The twenty answers of the Magic 8-Ball.
pub open spec fn eight_ball_answers() -> Seq<Seq<char>> {
    seq![
        "It is certain."@,
        "It is decidedly so."@,
        "Without a doubt."@,
        "Yes\u{2014}definitely."@,
        "You may rely on it."@,
        "As I see it, yes."@,
        "Most likely."@,
        "Outlook good."@,
        "Yes."@,
        "Signs point to yes."@,
        "Reply hazy, try again."@,
        "Ask again later."@,
        "Better not tell you now."@,
        "Cannot predict now."@,
        "Concentrate and ask again."@,
        "Don't count on it."@,
        "My reply is no."@,
        "My sources say no."@,
        "Outlook not so good."@,
        "Very doubtful."@,
    ]
}

/// The answers of the Magic 8-Ball, in order.
pub fn answers() -> (v: Vec<&'static str>)
    ensures
        strs(v@) == eight_ball_answers(),
{
    let v = vec![
        "It is certain.",
        "It is decidedly so.",
        "Without a doubt.",
        "Yes\u{2014}definitely.",
        "You may rely on it.",
        "As I see it, yes.",
        "Most likely.",
        "Outlook good.",
        "Yes.",
        "Signs point to yes.",
        "Reply hazy, try again.",
        "Ask again later.",
        "Better not tell you now.",
        "Cannot predict now.",
        "Concentrate and ask again.",
        "Don't count on it.",
        "My reply is no.",
        "My sources say no.",
        "Outlook not so good.",
        "Very doubtful.",
    ];
    assert(strs(v@) =~= eight_ball_answers());
    v
}

/// Seeds a `SmallRng` from the operating system with `SeedableRng::from_rng`
/// and `OsRng`, then calls `rand`'s `SliceRandom::choose`. `None` where the
/// slice is empty or the operating system gives no randomness; otherwise
/// one of the slice's elements. Which element comes out is left open.
#[verifier::external_body]
fn choose_one(items: &[&'static str]) -> (r: Option<&'static str>)
    ensures
        items@.len() == 0 ==> r is None,
        r matches Some(a) ==> items@.contains(a),
{
    let mut rng = SmallRng::from_rng(OsRng).ok()?;
    items.choose(&mut rng).copied()
}

/// The 8-Ball command: one of the answers, picked at random; `None` where
/// the operating system gives no randomness to pick with.
pub fn eight_ball() -> (r: Option<&'static str>)
    ensures
        r matches Some(a) ==> eight_ball_answers().contains(a@),
{
    let all = answers();
    match choose_one(all.as_slice()) {
        Some(a) => {
            proof {
                let i = choose|i: int| 0 <= i < all@.len() && all@[i] == a;
                assert(strs(all@)[i] == a@);
            }
            Some(a)
        },
        None => None,
    }
}

/// How `unicode-segmentation` splits a text at word boundaries (UAX #29).
pub uninterp spec fn word_bounds(s: Seq<char>) -> Seq<Seq<char>>;

/// How `unicode-segmentation` splits a text into extended grapheme clusters.
pub uninterp spec fn grapheme_clusters(s: Seq<char>) -> Seq<Seq<char>>;

/// Calls `split_word_bounds`. The crate documents that the pieces put back
/// together give the original text, and its iterator hands out only
/// non-empty slices between successive boundaries; the contract says so and
/// names the pieces.
#[verifier::external_body]
fn split_word_bounds(s: &str) -> (r: Vec<&str>)
    ensures
        strs(r@) == word_bounds(s@),
        strs(r@).flatten() == s@,
        forall|i: int| 0 <= i < r@.len() ==> (#[trigger] r@[i])@.len() > 0,
{
    s.split_word_bounds().collect()
}

/// Calls `graphemes(true)`. Its source hands out consecutive slices from the
/// start of the text to its end, so the pieces put back together give the
/// original text; the contract says so and names the pieces.
#[verifier::external_body]
fn split_graphemes(s: &str) -> (r: Vec<&str>)
    ensures
        strs(r@) == grapheme_clusters(s@),
        strs(r@).flatten() == s@,
{
    s.graphemes(true).collect()
}

/// Seeds a `SmallRng` from the operating system with `SeedableRng::from_rng`
/// and `OsRng`, then calls `rand`'s `SliceRandom::shuffle`, which only swaps
/// elements. Returns `false`, leaving the pieces as they were, where the
/// operating system gives no randomness. The contract says only that the
/// same pieces come out, in some order.
#[verifier::external_body]
fn shuffle_pieces(pieces: &mut Vec<&str>) -> (shuffled: bool)
    ensures
        strs(final(pieces)@).to_multiset() == strs(old(pieces)@).to_multiset(),
        !shuffled ==> final(pieces)@ == old(pieces)@,
{
    match SmallRng::from_rng(OsRng) {
        Ok(mut rng) => {
            pieces.shuffle(&mut rng);
            true
        },
        Err(_) => false,
    }
}

/// The pieces in `perms` are, word by word, the grapheme clusters of the
/// corresponding word in `words`, each list in some order; so the pieces of
/// each word hold exactly that word's characters.
pub open spec fn scrambles(words: Seq<Seq<char>>, perms: Seq<Seq<Seq<char>>>) -> bool {
    &&& perms.len() == words.len()
    &&& forall|i: int| 0 <= i < words.len()
        ==> (#[trigger] perms[i]).to_multiset() == grapheme_clusters(words[i]).to_multiset()
    &&& forall|i: int| 0 <= i < words.len()
        ==> (#[trigger] perms[i]).flatten().to_multiset() == words[i].to_multiset()
}

/// The texts of a list of lists of string slices.
pub open spec fn piece_texts(v: Seq<Vec<&str>>) -> Seq<Seq<Seq<char>>> {
    v.map_values(|w: Vec<&str>| strs(w@))
}

/// All the pieces, in order, put together.
pub open spec fn joined(perms: Seq<Seq<Seq<char>>>) -> Seq<char> {
    perms.map_values(|p: Seq<Seq<char>>| p.flatten()).flatten()
}

proof fn lemma_flatten_pointwise(a: Seq<Seq<char>>, b: Seq<Seq<char>>)
    requires
        a.len() == b.len(),
        forall|i: int| 0 <= i < a.len() ==> (#[trigger] a[i]).to_multiset() == b[i].to_multiset(),
    ensures
        a.flatten().to_multiset() == b.flatten().to_multiset(),
    decreases a.len(),
{
    if a.len() > 0 {
        lemma_flatten_pointwise(a.drop_first(), b.drop_first());
        vstd::seq_lib::lemma_multiset_commutative(a[0], a.drop_first().flatten());
        vstd::seq_lib::lemma_multiset_commutative(b[0], b.drop_first().flatten());
        assert(a[0].to_multiset() == b[0].to_multiset());
    }
}

proof fn lemma_flatten_permutation(x: Seq<Seq<char>>, y: Seq<Seq<char>>)
    requires
        x.to_multiset() == y.to_multiset(),
    ensures
        x.flatten().to_multiset() == y.flatten().to_multiset(),
    decreases x.len(),
{
    broadcast use vstd::seq_lib::group_to_multiset_ensures;
    broadcast use vstd::multiset::group_multiset_axioms;

    if x.len() == 0 {
        assert(y.to_multiset().len() == 0);
        assert(y =~= Seq::<Seq<char>>::empty());
    } else {
        let e = x[0];
        assert(x.to_multiset().count(e) > 0);
        assert(y.contains(e));
        let k = choose|k: int| 0 <= k < y.len() && y[k] == e;
        let y2 = y.remove(k);
        assert(x.remove(0) =~= x.drop_first());
        assert(x.drop_first().to_multiset() == y2.to_multiset());
        lemma_flatten_permutation(x.drop_first(), y2);
        let pre = y.take(k);
        let post = y.skip(k + 1);
        assert(y =~= pre + (seq![e] + post));
        assert(y2 =~= pre + post);
        vstd::seq_lib::lemma_flatten_concat(pre, seq![e] + post);
        vstd::seq_lib::lemma_flatten_concat(seq![e], post);
        vstd::seq_lib::lemma_flatten_concat(pre, post);
        let single = seq![e];
        assert(single.drop_first() =~= Seq::<Seq<char>>::empty());
        assert(single.drop_first().flatten() =~= Seq::<char>::empty());
        assert(single.first() == e);
        assert(single.flatten() == single.first() + single.drop_first().flatten());
        assert(single.flatten() =~= e);
        vstd::seq_lib::lemma_multiset_commutative(pre.flatten(), e + post.flatten());
        vstd::seq_lib::lemma_multiset_commutative(e, post.flatten());
        vstd::seq_lib::lemma_multiset_commutative(pre.flatten(), post.flatten());
        vstd::seq_lib::lemma_multiset_commutative(e, x.drop_first().flatten());
        assert(x.flatten().to_multiset() =~= y.flatten().to_multiset());
    }
}

/// All the pieces put together, word after word and piece after piece.
pub fn join_pieces(pieces: &Vec<Vec<&str>>) -> (r: String)
    ensures
        r@ == joined(piece_texts(pieces@)),
{
    let ghost all = piece_texts(pieces@);
    let mut r = String::new();
    let n = pieces.len();
    let mut i: usize = 0;
    while i < n
        invariant
            i <= n,
            n == pieces@.len(),
            all == piece_texts(pieces@),
            r@ == all.take(i as int).map_values(|p: Seq<Seq<char>>| p.flatten()).flatten_alt(),
        decreases n - i,
    {
        let word = &pieces[i];
        let ghost before = r@;
        let m = word.len();
        let mut k: usize = 0;
        while k < m
            invariant
                k <= m,
                m == word@.len(),
                r@ == before + strs(word@).take(k as int).flatten_alt(),
            decreases m - k,
        {
            r.append(word[k]);
            assert(strs(word@).take(k + 1).drop_last() =~= strs(word@).take(k as int));
            k = k + 1;
        }
        proof {
            assert(strs(word@).take(m as int) =~= strs(word@));
            strs(word@).lemma_flatten_and_flatten_alt_are_equivalent();
            assert(all[i as int] == strs(word@));
            assert(all.take(i + 1).map_values(|p: Seq<Seq<char>>| p.flatten()).drop_last()
                =~= all.take(i as int).map_values(|p: Seq<Seq<char>>| p.flatten()));
        }
        i = i + 1;
    }
    proof {
        assert(all.take(n as int) =~= all);
        all.map_values(|p: Seq<Seq<char>>| p.flatten()).lemma_flatten_and_flatten_alt_are_equivalent();
    }
    r
}

/// The scramble command: splits the text at word boundaries and shuffles the
/// grapheme clusters within each word; `None` where the operating system
/// gives no randomness to shuffle with.
pub fn scramble(text: &str) -> (r: Option<String>)
    ensures
        word_bounds(text@).flatten() == text@,
        forall|i: int| 0 <= i < word_bounds(text@).len() ==> (#[trigger] word_bounds(text@)[i]).len() > 0,
        word_bounds(text@).len() == 0 ==> (r matches Some(s) && s@ == Seq::<char>::empty()),
        text@.len() == 0 ==> (r matches Some(s) && s@ == Seq::<char>::empty()),
        r matches Some(r) ==> exists|perms: Seq<Seq<Seq<char>>>|
            scrambles(word_bounds(text@), perms) && r@ == #[trigger] joined(perms),
        r matches Some(r) ==> r@.to_multiset() == text@.to_multiset(),
{
    let words = split_word_bounds(text);
    let ghost ws = strs(words@);
    proof {
        assert forall|i: int| 0 <= i < ws.len() implies (#[trigger] ws[i]).len() > 0 by {
            assert(ws[i] == words@[i]@);
        }
        if ws.len() > 0 {
            assert(ws.flatten() == ws[0] + ws.drop_first().flatten());
        }
    }
    let mut all: Vec<Vec<&str>> = Vec::new();
    let n = words.len();
    let mut i: usize = 0;
    while i < n
        invariant
            i <= n,
            n == words@.len(),
            ws == strs(words@),
            ws == word_bounds(text@),
            ws.flatten() == text@,
            forall|j: int| 0 <= j < ws.len() ==> (#[trigger] ws[j]).len() > 0,
            n > 0 ==> text@.len() > 0,
            all@.len() == i,
            forall|j: int| 0 <= j < i
                ==> (#[trigger] piece_texts(all@)[j]).to_multiset()
                    == grapheme_clusters(ws[j]).to_multiset(),
            forall|j: int| 0 <= j < i
                ==> (#[trigger] piece_texts(all@)[j]).flatten().to_multiset()
                    == ws[j].to_multiset(),
        decreases n - i,
    {
        let mut pieces = split_graphemes(words[i]);
        if !shuffle_pieces(&mut pieces) {
            return None;
        }
        proof {
            lemma_flatten_permutation(strs(pieces@), grapheme_clusters(ws[i as int]));
        }
        let ghost before = all@;
        all.push(pieces);
        proof {
            assert forall|j: int| 0 <= j < i + 1 implies
                (#[trigger] piece_texts(all@)[j]).to_multiset()
                    == grapheme_clusters(ws[j]).to_multiset()
                && piece_texts(all@)[j].flatten().to_multiset() == ws[j].to_multiset() by {
                if j < i {
                    assert(piece_texts(all@)[j] == piece_texts(before)[j]);
                }
            }
        }
        i = i + 1;
    }
    let r = join_pieces(&all);
    proof {
        let perms = piece_texts(all@);
        if n == 0 {
            assert(perms.map_values(|p: Seq<Seq<char>>| p.flatten()) =~= Seq::<Seq<char>>::empty());
            assert(r@ =~= Seq::<char>::empty());
        }
        assert(scrambles(word_bounds(text@), perms));
        assert(r@ == joined(perms));
        lemma_flatten_pointwise(perms.map_values(|p: Seq<Seq<char>>| p.flatten()), ws);
    }
    Some(r)
}

} // verus!
