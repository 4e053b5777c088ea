//! Grouping items by name, groups in the order in which they first appear.

use vstd::hash_map::StringHashMap;
use vstd::prelude::*;

use crate::order;
use crate::text;

verus! {

/// The different names, each where it first appears.
pub open spec fn distinct(names: Seq<Seq<char>>) -> Seq<Seq<char>>
    decreases names.len(),
{
    if names.len() == 0 {
        Seq::empty()
    } else {
        let before = distinct(names.drop_last());
        if before.contains(names.last()) {
            before
        } else {
            before.push(names.last())
        }
    }
}

/// The places at which the name stands.
pub open spec fn places(names: Seq<Seq<char>>, name: Seq<char>) -> Seq<int>
    decreases names.len(),
{
    if names.len() == 0 {
        Seq::empty()
    } else {
        let before = places(names.drop_last(), name);
        if names.last() == name {
            before.push(names.len() - 1)
        } else {
            before
        }
    }
}

/// The items that go by the name, in their order.
pub open spec fn with_name<T>(items: Seq<T>, names: Seq<Seq<char>>, name: Seq<char>) -> Seq<T> {
    places(names, name).map_values(|i: int| items[i])
}

/// The different names are the names, each once.
pub proof fn lemma_distinct(names: Seq<Seq<char>>)
    ensures
        forall|x: Seq<char>|
            #![trigger distinct(names).contains(x)]
            #![trigger names.contains(x)]
            distinct(names).contains(x) <==> names.contains(x),
        distinct(names).no_duplicates(),
        distinct(names).len() <= names.len(),
    decreases names.len(),
{
    if names.len() > 0 {
        let front = names.drop_last();
        let before = distinct(front);
        lemma_distinct(front);
        assert forall|x: Seq<char>|
            #![trigger distinct(names).contains(x)]
            #![trigger names.contains(x)]
            distinct(names).contains(x) <==> names.contains(x) by {
            if names.contains(x) {
                let i = choose|i: int| 0 <= i < names.len() && names[i] == x;
                if i < names.len() - 1 {
                    assert(front[i] == x);
                    assert(front.contains(x));
                    let k = choose|k: int| 0 <= k < before.len() && before[k] == x;
                    assert(distinct(names)[k] == x);
                } else if !before.contains(names.last()) {
                    assert(distinct(names)[before.len() as int] == x);
                }
            }
            if distinct(names).contains(x) {
                let k = choose|k: int| 0 <= k < distinct(names).len() && distinct(names)[k] == x;
                if k < before.len() {
                    assert(before.contains(x));
                    let i = choose|i: int| 0 <= i < front.len() && front[i] == x;
                    assert(names[i] == x);
                } else {
                    assert(names[names.len() - 1] == x);
                }
            }
        }
    }
}

/// The places of a name ascend, hold the name, and miss no place that does.
pub proof fn lemma_places(names: Seq<Seq<char>>, name: Seq<char>)
    ensures
        forall|k: int|
            0 <= k < places(names, name).len() ==> 0 <= #[trigger] places(names, name)[k]
                < names.len() && names[places(names, name)[k]] == name,
        forall|i: int|
            0 <= i < names.len() && #[trigger] names[i] == name ==> places(names, name).contains(i),
        forall|j: int, k: int|
            0 <= j < k < places(names, name).len() ==> #[trigger] places(names, name)[j]
                < #[trigger] places(names, name)[k],
        places(names, name).len() <= names.len(),
    decreases names.len(),
{
    if names.len() > 0 {
        let front = names.drop_last();
        lemma_places(front, name);
        let before = places(front, name);
        let all = places(names, name);
        assert forall|k: int| 0 <= k < all.len() implies 0 <= #[trigger] all[k] < names.len()
            && names[all[k]] == name by {
            if k < before.len() {
                assert(all[k] == before[k]);
                assert(front[before[k]] == name);
            }
        }
        assert forall|i: int| 0 <= i < names.len() && #[trigger] names[i] == name implies all.contains(i) by {
            if i < names.len() - 1 {
                assert(front[i] == name);
                let k = choose|k: int| 0 <= k < before.len() && before[k] == i;
                assert(all[k] == i);
            } else {
                assert(all[before.len() as int] == i);
            }
        }
    }
}

/// A name that is not among the names has no place.
proof fn lemma_no_places(names: Seq<Seq<char>>, name: Seq<char>)
    requires
        !distinct(names).contains(name),
    ensures
        places(names, name).len() == 0,
{
    lemma_distinct(names);
    lemma_places(names, name);
    if places(names, name).len() > 0 {
        assert(names[places(names, name)[0]] == name);
        assert(names.contains(name));
    }
}

/// A name and the places at which it stands.
pub struct Bucket {
    pub name: String,
    pub places: Vec<usize>,
}

/// The names of the buckets.
pub open spec fn bucket_names(b: Seq<Bucket>) -> Seq<Seq<char>> {
    b.map_values(|x: Bucket| x.name@)
}

/// The different names with their places.
pub fn group_names(names: &Vec<String>) -> (r: Vec<Bucket>)
    ensures
        bucket_names(r@) == distinct(text::texts(names@)),
        forall|k: int|
            0 <= k < r@.len() ==> order::ints((#[trigger] r@[k]).places@) == places(
                text::texts(names@),
                r@[k].name@,
            ),
{
    let ghost all = text::texts(names@);
    let mut heads: Vec<String> = Vec::new();
    let mut lists: Vec<Vec<usize>> = Vec::new();
    let mut at: StringHashMap<usize> = StringHashMap::new();
    let mut i: usize = 0;
    proof {
        assert(text::texts(heads@) =~= distinct(all.take(0)));
    }
    while i < names.len()
        invariant
            i <= names@.len(),
            all == text::texts(names@),
            heads@.len() == lists@.len(),
            text::texts(heads@) == distinct(all.take(i as int)),
            forall|x: Seq<char>| #[trigger]
                at@.contains_key(x) ==> at@[x] < heads@.len() && heads@[at@[x] as int]@ == x,
            forall|k: int| 0 <= k < heads@.len() ==> at@.contains_key((#[trigger] heads@[k])@),
            forall|k: int|
                0 <= k < lists@.len() ==> order::ints((#[trigger] lists@[k])@) == places(
                    all.take(i as int),
                    heads@[k]@,
                ),
        decreases names@.len() - i,
    {
        let ghost before = all.take(i as int);
        let ghost after = all.take(i + 1);
        proof {
            assert(after.drop_last() =~= before);
            assert(after.last() == names@[i as int]@);
            lemma_distinct(before);
        }
        let ghost name = names@[i as int]@;
        let ghost old_heads = heads@;
        let ghost old_lists = lists@;
        match at.get(names[i].as_str()) {
            Some(p) => {
                let p: usize = *p;
                proof {
                    assert(text::texts(heads@)[p as int] == name);
                    assert(distinct(before).contains(name));
                }
                let mut list: Vec<usize> = Vec::new();
                std::mem::swap(&mut list, &mut lists[p]);
                list.push(i);
                std::mem::swap(&mut list, &mut lists[p]);
                proof {
                    assert forall|k: int| 0 <= k < lists@.len() implies order::ints(
                        (#[trigger] lists@[k])@,
                    ) == places(after, heads@[k]@) by {
                        if k == p {
                            assert(order::ints(lists@[k]@) =~= order::ints(old_lists[k]@).push(
                                i as int,
                            ));
                        } else {
                            assert(lists@[k] == old_lists[k]);
                            assert(distinct(before)[k] != distinct(before)[p as int]);
                            assert(text::texts(heads@)[k] == heads@[k]@);
                        }
                    }
                }
            },
            None => {
                proof {
                    if distinct(before).contains(name) {
                        let k = choose|k: int|
                            0 <= k < distinct(before).len() && distinct(before)[k] == name;
                        assert(text::texts(heads@)[k] == heads@[k]@);
                        assert(at@.contains_key(heads@[k]@));
                    }
                    lemma_no_places(before, name);
                }
                let mut list: Vec<usize> = Vec::new();
                list.push(i);
                at.insert(names[i].clone(), heads.len());
                heads.push(names[i].clone());
                lists.push(list);
                proof {
                    assert(text::texts(heads@) =~= text::texts(old_heads).push(name));
                    assert forall|k: int| 0 <= k < lists@.len() implies order::ints(
                        (#[trigger] lists@[k])@,
                    ) == places(after, heads@[k]@) by {
                        if k < old_lists.len() {
                            assert(lists@[k] == old_lists[k]);
                            assert(text::texts(old_heads)[k] == old_heads[k]@);
                            assert(distinct(before).contains(heads@[k]@));
                        } else {
                            assert(order::ints(lists@[k]@) =~= places(before, name).push(i as int));
                        }
                    }
                    assert forall|x: Seq<char>| #[trigger] at@.contains_key(x) implies at@[x]
                        < heads@.len() && heads@[at@[x] as int]@ == x by {}
                    assert forall|k: int| 0 <= k < heads@.len() implies at@.contains_key(
                        (#[trigger] heads@[k])@,
                    ) by {
                        if k < old_heads.len() {
                            assert(heads@[k] == old_heads[k]);
                        }
                    }
                }
            },
        }
        i = i + 1;
    }
    proof {
        assert(all.take(i as int) =~= all);
    }
    zip_buckets(heads, lists)
}

/// Pairs each name with its places.
fn zip_buckets(heads: Vec<String>, lists: Vec<Vec<usize>>) -> (r: Vec<Bucket>)
    requires
        heads@.len() == lists@.len(),
    ensures
        bucket_names(r@) == text::texts(heads@),
        r@.len() == lists@.len(),
        forall|k: int|
            0 <= k < r@.len() ==> (#[trigger] r@[k]).places@ == lists@[k]@ && r@[k].name@
                == heads@[k]@,
{
    let mut r: Vec<Bucket> = Vec::new();
    let mut heads = heads;
    let mut lists = lists;
    let ghost hs = heads@;
    let ghost ls = lists@;
    let mut i: usize = 0;
    let n: usize = heads.len();
    while i < n
        invariant
            i <= n,
            n == hs.len(),
            hs.len() == ls.len(),
            heads@.len() == n,
            lists@.len() == n,
            r@.len() == i,
            forall|k: int| i <= k < n ==> #[trigger] heads@[k] == hs[k],
            forall|k: int| i <= k < n ==> #[trigger] lists@[k] == ls[k],
            forall|k: int|
                0 <= k < i ==> (#[trigger] r@[k]).places@ == ls[k]@ && r@[k].name@ == hs[k]@,
        decreases n - i,
    {
        let mut name = String::new();
        let mut places: Vec<usize> = Vec::new();
        std::mem::swap(&mut name, &mut heads[i]);
        std::mem::swap(&mut places, &mut lists[i]);
        r.push(Bucket { name, places });
        i = i + 1;
    }
    assert(bucket_names(r@) =~= text::texts(hs));
    r
}

/// The different names in dictionary order.
pub open spec fn sorted_names(names: Seq<Seq<char>>) -> Seq<Seq<char>> {
    order::sorted_by(distinct(names), text::text_order())
}

/// Dictionary order is an order on all texts.
pub proof fn lemma_text_order()
    ensures
        order::is_preorder(text::text_order()),
{
    let le = text::text_order();
    assert forall|a: Seq<char>, b: Seq<char>| #[trigger] le(a, b) || le(b, a) by {
        text::text_le_is_total(a, b);
    }
    assert forall|a: Seq<char>, b: Seq<char>, c: Seq<char>| #[trigger] le(a, b) && #[trigger] le(
        b,
        c,
    ) implies le(a, c) by {
        text::text_le_is_transitive(a, b, c);
    }
}

/// The sorted names are the names, each once, in strictly ascending order.
pub proof fn sorted_names_are_a_set(names: Seq<Seq<char>>)
    ensures
        forall|x: Seq<char>|
            #![trigger sorted_names(names).contains(x)]
            #![trigger names.contains(x)]
            sorted_names(names).contains(x) <==> names.contains(x),
        forall|i: int, j: int|
            0 <= i < j < sorted_names(names).len() ==> text::text_le(
                #[trigger] sorted_names(names)[i],
                #[trigger] sorted_names(names)[j],
            ) && sorted_names(names)[i] != sorted_names(names)[j],
{
    broadcast use vstd::seq_lib::group_to_multiset_ensures;

    let d = distinct(names);
    let s = sorted_names(names);
    let le = text::text_order();
    lemma_distinct(names);
    lemma_text_order();
    order::lemma_sorted_by(d, le);
    assert forall|x: Seq<char>|
        #![trigger s.contains(x)]
        #![trigger names.contains(x)]
        s.contains(x) <==> names.contains(x) by {
        order::lemma_sorted_members(d, le, x);
        assert(d.contains(x) <==> names.contains(x));
    }
    d.lemma_multiset_has_no_duplicates();
    assert(s.to_multiset() == d.to_multiset());
    s.lemma_multiset_has_no_duplicates_conv();
    assert forall|i: int, j: int| 0 <= i < j < s.len() implies text::text_le(
        #[trigger] s[i],
        #[trigger] s[j],
    ) && s[i] != s[j] by {
        assert(le(s[i], s[j]));
    }
}

/// The different names in dictionary order.
pub fn sort_names(names: &Vec<String>) -> (r: Vec<String>)
    ensures
        text::texts(r@) == sorted_names(text::texts(names@)),
{
    let buckets = group_names(names);
    let ghost d = distinct(text::texts(names@));
    let n: usize = buckets.len();
    let ghost rel = |i: int, j: int| text::text_order()(d[i], d[j]);
    proof {
        assert(bucket_names(buckets@).len() == n);
        lemma_text_order();
        let le = text::text_order();
        assert forall|a: int, b: int| #[trigger] rel(a, b) || rel(b, a) by {
            assert(le(d[a], d[b]) || le(d[b], d[a]));
        }
        assert forall|a: int, b: int, c: int| #[trigger] rel(a, b) && #[trigger] rel(
            b,
            c,
        ) implies rel(a, c) by {
            assert(le(d[a], d[b]) && le(d[b], d[c]));
        }
        assert forall|k: int| 0 <= k < n implies d[k] == (#[trigger] buckets@[k]).name@ by {
            assert(bucket_names(buckets@)[k] == buckets@[k].name@);
        }
    }
    let le = |i: usize, j: usize| -> (r: bool)
        requires
            i < n,
            j < n,
            n == buckets@.len(),
        ensures
            r == text::text_le(buckets@[i as int].name@, buckets@[j as int].name@),
        { text::text_at_most(buckets[i].name.as_str(), buckets[j].name.as_str()) };
    let sorted = order::order_of(n, le, Ghost(rel));
    let mut r: Vec<String> = Vec::new();
    let mut i: usize = 0;
    while i < n
        invariant
            i <= n,
            n == sorted@.len(),
            n == buckets@.len(),
            n == d.len(),
            forall|k: int| 0 <= k < n ==> #[trigger] sorted@[k] < n,
            forall|k: int| 0 <= k < n ==> d[k] == (#[trigger] buckets@[k]).name@,
            r@.len() == i,
            forall|k: int| 0 <= k < i ==> (#[trigger] r@[k])@ == d[sorted@[k] as int],
        decreases n - i,
    {
        r.push(buckets[sorted[i]].name.clone());
        i = i + 1;
    }
    proof {
        let f = |i: int| d[i];
        order::lemma_sorted_map(order::positions(n as nat), f, text::text_order(), rel);
        assert(order::positions(n as nat).map_values(f) =~= d);
        assert(text::texts(r@) =~= order::ints(sorted@).map_values(f));
    }
    r
}

} // verus!
