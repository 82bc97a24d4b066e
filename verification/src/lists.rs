//! Lists of numbers from which entries are struck.
use vstd::prelude::*;

verus! {

/// The list without the entries equal to `entry`.
pub open spec fn struck(list: Seq<usize>, entry: usize) -> Seq<usize> {
    list.filter(|x: usize| x != entry)
}

/// What a list contains after one more item.
pub proof fn lemma_push_contains<A>(s: Seq<A>, a: A, x: A)
    ensures
        s.push(a).contains(x) <==> s.contains(x) || a == x,
{
    if s.contains(x) {
        let i = choose|i: int| 0 <= i < s.len() && s[i] == x;
        assert(s.push(a)[i] == x);
    }
    if a == x {
        assert(s.push(a)[s.len() as int] == x);
    }
    if s.push(a).contains(x) {
        let i = choose|i: int| 0 <= i < s.push(a).len() && s.push(a)[i] == x;
        if i < s.len() {
            assert(s[i] == x);
        }
    }
}

/// Striking an entry removes it and nothing else, and brings in no duplicates. A list that has
/// the entry once gets shorter by one.
pub proof fn lemma_struck(list: Seq<usize>, entry: usize)
    ensures
        forall|x: usize| #[trigger] struck(list, entry).contains(x) <==> list.contains(x) && x != entry,
        list.no_duplicates() ==> struck(list, entry).no_duplicates(),
        !list.contains(entry) ==> struck(list, entry) == list,
        list.no_duplicates() && list.contains(entry) ==> struck(list, entry).len() == list.len() - 1,
    decreases list.len(),
{
    let keep = |x: usize| x != entry;
    reveal(Seq::filter);
    if list.len() > 0 {
        let front = list.drop_last();
        let last = list.last();
        lemma_struck(front, entry);
        assert(list =~= front.push(last));
        assert forall|x: usize| #[trigger] struck(list, entry).contains(x) <==> list.contains(x) && x
            != entry by {
            lemma_push_contains(front, last, x);
            if last != entry {
                lemma_push_contains(struck(front, entry), last, x);
            }
            assert(struck(front, entry).contains(x) <==> front.contains(x) && x != entry);
        }
        if list.no_duplicates() {
            assert(front.no_duplicates());
            assert(!front.contains(last)) by {
                if front.contains(last) {
                    let i = choose|i: int| 0 <= i < front.len() && front[i] == last;
                    assert(list[i] == list[list.len() - 1]);
                }
            }
            assert(!struck(front, entry).contains(last));
            lemma_push_contains(front, last, entry);
        }
        if !list.contains(entry) {
            lemma_push_contains(front, last, entry);
            assert(struck(list, entry) =~= list);
        }
    } else {
        assert(struck(list, entry) =~= list);
    }
}

/// The list without the entries equal to `entry`, in a list of its own.
pub fn strike(list: &Vec<usize>, entry: usize) -> (res: Vec<usize>)
    ensures
        res@ == struck(list@, entry),
{
    let mut kept: Vec<usize> = Vec::new();
    let mut i: usize = 0;
    proof {
        reveal(Seq::filter);
        assert(struck(list@.take(0), entry) =~= Seq::<usize>::empty());
    }
    while i < list.len()
        invariant
            i <= list@.len(),
            kept@ == struck(list@.take(i as int), entry),
        decreases list@.len() - i,
    {
        let cur: usize = list[i];
        proof {
            reveal(Seq::filter);
            assert(list@.take(i + 1).drop_last() =~= list@.take(i as int));
        }
        if cur != entry {
            kept.push(cur);
        }
        i = i + 1;
    }
    proof {
        assert(list@.take(i as int) =~= list@);
    }
    kept
}

/// A copy of the list.
pub fn copy(list: &Vec<usize>) -> (res: Vec<usize>)
    ensures
        res@ == list@,
{
    let res = list.clone();
    proof {
        assert(res@ =~= list@);
    }
    res
}

/// What is left when an entry is struck is in the order in which it was.
pub proof fn lemma_struck_in_order(list: Seq<usize>, last: usize, entry: usize)
    ensures
        struck(Seq::empty(), entry).len() == 0,
        struck(list.push(last), entry) == if last == entry {
            struck(list, entry)
        } else {
            struck(list, entry).push(last)
        },
{
    reveal(Seq::filter);
    assert(list.push(last).drop_last() =~= list);
}

} // verus!
