//! The server list: the names of the servers the bot is in, sorted, one per
//! line.

use serenity::utils::MessageBuilder;
use vstd::prelude::*;
use vstd::relations::sorted_by;
use crate::text::{lemma_text_le_total, text_le, text_le_exec, text_order};

verus! {

broadcast use vstd::seq_lib::group_to_multiset_ensures;

#[verifier::external_type_specification]
#[verifier::external_body]
pub struct ExMessageBuilder(MessageBuilder);

/// The text that a `serenity` `MessageBuilder` holds.
pub uninterp spec fn builder_text(b: MessageBuilder) -> Seq<char>;

/// Calls `MessageBuilder::new`, which starts from an empty text.
#[verifier::external_body]
fn new_builder() -> (b: MessageBuilder)
    ensures
        builder_text(b) == Seq::<char>::empty(),
{
    MessageBuilder::new()
}

/// Calls `MessageBuilder::push_line`, which appends the text and a newline.
#[verifier::external_body]
fn push_line(b: &mut MessageBuilder, line: &str)
    ensures
        builder_text(*final(b)) == builder_text(*old(b)) + line@ + seq!['\n'],
{
    b.push_line(line);
}

/// Calls `MessageBuilder::build`, which hands out a copy of the text and
/// keeps it.
#[verifier::external_body]
fn build(b: &mut MessageBuilder) -> (r: String)
    ensures
        r@ == builder_text(*old(b)),
        builder_text(*final(b)) == builder_text(*old(b)),
{
    b.build()
}

/// The texts of a list of strings.
pub open spec fn texts(v: Seq<String>) -> Seq<Seq<char>> {
    v.map_values(|s: String| s@)
}

/// The texts one after another, each followed by a newline.
pub open spec fn lines(s: Seq<Seq<char>>) -> Seq<char>
    decreases s.len(),
{
    if s.len() == 0 {
        Seq::empty()
    } else {
        lines(s.drop_last()) + s.last() + seq!['\n']
    }
}

proof fn lemma_lines_flatten(s: Seq<Seq<char>>)
    ensures
        lines(s) == s.map_values(|x: Seq<char>| x.push('\n')).flatten_alt(),
    decreases s.len(),
{
    if s.len() > 0 {
        lemma_lines_flatten(s.drop_last());
        assert(s.map_values(|x: Seq<char>| x.push('\n')).drop_last()
            =~= s.drop_last().map_values(|x: Seq<char>| x.push('\n')));
        assert(s.last() + seq!['\n'] =~= s.last().push('\n'));
        assert(lines(s) =~= s.map_values(|x: Seq<char>| x.push('\n')).flatten_alt());
    } else {
        assert(s.map_values(|x: Seq<char>| x.push('\n')) =~= Seq::<Seq<char>>::empty());
    }
}

/// The server list has one line per server: it is every name, in
/// `text_le` order, each followed by a newline, and the names in it are the
/// given names, each as often as it was given.
pub proof fn law_server_list_one_line_per_server(names: Seq<Seq<char>>)
    ensures
        lines(names.sort_by(text_order())) == names.sort_by(text_order()).map_values(
            |x: Seq<char>| x.push('\n'),
        ).flatten(),
        names.sort_by(text_order()).to_multiset() == names.to_multiset(),
        sorted_by(names.sort_by(text_order()), text_order()),
{
    lemma_text_le_total();
    names.lemma_sort_by_ensures(text_order());
    let sorted = names.sort_by(text_order());
    lemma_lines_flatten(sorted);
    sorted.map_values(|x: Seq<char>| x.push('\n')).lemma_flatten_and_flatten_alt_are_equivalent();
}

/// The strings in `text_le` order.
pub fn sort_texts(names: Vec<String>) -> (r: Vec<String>)
    ensures
        texts(r@) == texts(names@).sort_by(text_order()),
{
    proof {
        lemma_text_le_total();
    }
    let ghost all = texts(names@);
    let mut rest = names;
    let mut sorted: Vec<String> = Vec::new();
    while rest.len() > 0
        invariant
            vstd::relations::total_ordering(text_order()),
            sorted_by(texts(sorted@), text_order()),
            texts(sorted@).to_multiset().add(texts(rest@).to_multiset()) == all.to_multiset(),
        decreases rest.len(),
    {
        let ghost before = rest@;
        let name = match rest.pop() {
            Some(n) => n,
            None => { return sorted; },
        };
        assert(texts(before) =~= texts(rest@).push(name@));
        let mut i: usize = 0;
        while i < sorted.len() && text_le_exec(sorted[i].as_str(), name.as_str())
            invariant
                i <= sorted@.len(),
                vstd::relations::total_ordering(text_order()),
                sorted_by(texts(sorted@), text_order()),
                forall|j: int| 0 <= j < i ==> text_le(#[trigger] sorted@[j]@, name@),
            decreases sorted@.len() - i,
        {
            i = i + 1;
        }
        let ghost old_sorted = texts(sorted@);
        proof {
            if i < sorted.len() {
                assert(!text_le(sorted@[i as int]@, name@));
                assert(text_order()(sorted@[i as int]@, name@) || text_order()(name@, sorted@[i as int]@));
                assert(text_le(name@, sorted@[i as int]@));
            }
        }
        sorted.insert(i, name);
        assert(texts(sorted@) =~= old_sorted.insert(i as int, name@));
        assert(sorted_by(texts(sorted@), text_order())) by {
            assert forall|a: int, b: int| 0 <= a < b < texts(sorted@).len() implies
                #[trigger] text_order()(texts(sorted@)[a], texts(sorted@)[b]) by {
                if b == i {
                    assert(texts(sorted@)[a] == old_sorted[a]);
                } else if a == i {
                    assert(texts(sorted@)[b] == old_sorted[b - 1]);
                    assert(text_order()(old_sorted[i as int], old_sorted[b - 1]) || b - 1 == i);
                } else {
                    let a0 = if a < i { a } else { a - 1 };
                    let b0 = if b < i { b } else { b - 1 };
                    assert(text_order()(old_sorted[a0], old_sorted[b0]));
                }
            }
        }
    }
    proof {
        assert(texts(rest@) =~= Seq::<Seq<char>>::empty());
        assert(texts(rest@).to_multiset() =~= vstd::multiset::Multiset::empty());
        assert(texts(sorted@).to_multiset().add(texts(rest@).to_multiset())
            =~= texts(sorted@).to_multiset());
        all.lemma_sort_by_ensures(text_order());
        vstd::seq_lib::lemma_sorted_unique(texts(sorted@), all.sort_by(text_order()), text_order());
    }
    sorted
}

/// The description of the server list: the names in `text_le` order, each
/// on a line of its own, as the bot sends it.
pub fn server_list(names: Vec<String>) -> (r: String)
    ensures
        r@ == lines(texts(names@).sort_by(text_order())),
{
    let sorted = sort_texts(names);
    let mut content = new_builder();
    let n = sorted.len();
    let mut i: usize = 0;
    while i < n
        invariant
            i <= n,
            n == sorted@.len(),
            builder_text(content) == lines(texts(sorted@).take(i as int)),
        decreases n - i,
    {
        push_line(&mut content, sorted[i].as_str());
        assert(texts(sorted@).take(i + 1).drop_last() =~= texts(sorted@).take(i as int));
        i = i + 1;
    }
    assert(texts(sorted@).take(n as int) =~= texts(sorted@));
    build(&mut content)
}

} // verus!
