//! Lists of stock symbols without repetition.

use vstd::prelude::*;

verus! {

/// The texts of the strings, one by one.
pub open spec fn texts(names: Seq<String>) -> Seq<Seq<char>> {
    Seq::new(names.len(), |k: int| names[k]@)
}

/// Each text once, in the order in which the texts are first mentioned.
pub open spec fn first_mentions(names: Seq<Seq<char>>) -> Seq<Seq<char>>
    decreases names.len(),
{
    if names.len() == 0 {
        Seq::empty()
    } else {
        let before = first_mentions(names.drop_last());
        if before.contains(names.last()) {
            before
        } else {
            before.push(names.last())
        }
    }
}

/// The first mentions are the texts mentioned, and none comes twice.
pub proof fn lemma_first_mentions(names: Seq<Seq<char>>)
    ensures
        forall|name: Seq<char>|
            #![trigger first_mentions(names).contains(name)]
            #![trigger names.contains(name)]
            first_mentions(names).contains(name) <==> names.contains(name),
        forall|i: int, j: int|
            0 <= i < j < first_mentions(names).len() ==> #[trigger] first_mentions(names)[i]
                != #[trigger] first_mentions(names)[j],
    decreases names.len(),
{
    if names.len() > 0 {
        let front = names.drop_last();
        let before = first_mentions(front);
        let now = first_mentions(names);
        lemma_first_mentions(front);
        assert forall|name: Seq<char>|
            #![trigger now.contains(name)]
            #![trigger names.contains(name)]
            now.contains(name) <==> names.contains(name) by {
            if now.contains(name) {
                let k = choose|k: int| 0 <= k < now.len() && now[k] == name;
                if k < before.len() {
                    assert(before[k] == name);
                    assert(before.contains(name));
                    let j = choose|j: int| 0 <= j < front.len() && front[j] == name;
                    assert(names[j] == name);
                } else {
                    assert(names[names.len() - 1] == name);
                }
            }
            if names.contains(name) {
                let j = choose|j: int| 0 <= j < names.len() && names[j] == name;
                if j < front.len() {
                    assert(front[j] == name);
                    assert(front.contains(name));
                    let k = choose|k: int| 0 <= k < before.len() && before[k] == name;
                    assert(now[k] == name);
                } else if before.contains(name) {
                } else {
                    assert(now[now.len() - 1] == name);
                }
            }
        }
        assert forall|i: int, j: int| 0 <= i < j < now.len() implies #[trigger] now[i]
            != #[trigger] now[j] by {
            if j == before.len() {
                assert(before[i] == now[i]);
                assert(before.contains(now[i]));
            }
        }
    }
}

/// Where `name` stands among `names`, if it does.
pub fn position_of(names: &Vec<String>, name: &String) -> (at: Option<usize>)
    ensures
        match at {
            Some(k) => k < names.len() && names[k as int]@ == name@,
            None => !texts(names@).contains(name@),
        },
{
    let mut k: usize = 0;
    while k < names.len()
        invariant
            0 <= k <= names.len(),
            forall|j: int| 0 <= j < k ==> (#[trigger] names[j])@ != name@,
        decreases names.len() - k,
    {
        if names[k] == *name {
            return Some(k);
        }
        k += 1;
    }
    proof {
        if texts(names@).contains(name@) {
            let j = choose|j: int| 0 <= j < texts(names@).len() && texts(names@)[j] == name@;
            assert(names[j]@ == name@);
        }
    }
    None
}

/// Each name once, in the order in which the names are first mentioned.
pub fn distinct_names(names: &Vec<String>) -> (distinct: Vec<String>)
    ensures
        texts(distinct@) == first_mentions(texts(names@)),
{
    let mut distinct: Vec<String> = Vec::new();
    let mut i: usize = 0;
    while i < names.len()
        invariant
            0 <= i <= names.len(),
            texts(distinct@) == first_mentions(texts(names@).take(i as int)),
        decreases names.len() - i,
    {
        proof {
            assert(texts(names@).take(i + 1).drop_last() =~= texts(names@).take(i as int));
            assert(texts(names@).take(i + 1).last() == names[i as int]@);
        }
        let ghost before = distinct@;
        match position_of(&distinct, &names[i]) {
            Some(k) => {
                assert(texts(before)[k as int] == names[i as int]@);
                assert(texts(before).contains(names[i as int]@));
            },
            None => {
                distinct.push(names[i].clone());
                assert(texts(distinct@) =~= texts(before).push(names[i as int]@));
            },
        }
        i += 1;
    }
    proof {
        assert(texts(names@).take(i as int) =~= texts(names@));
    }
    distinct
}

} // verus!
