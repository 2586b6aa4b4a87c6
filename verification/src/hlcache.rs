//! Intern highlight attribute sets into small integer ids.
//!
//! A given attribute set is defined once with an `hl_attr` event and referenced
//! by id forever after, for the lifetime of the connection. Id 0 is the implicit
//! default highlight and is never emitted: the host learns its colors from
//! `default_colors`.

use vstd::prelude::*;

use crate::protocol::{default_attrs, events_view, push_event, Attrs, Event, EventV};

verus! {

/// Connection-lifetime cache mapping attribute sets to highlight ids: the id of
/// a set is its position in the cache.
pub struct HlCache {
    entries: Vec<Attrs>,
}

/// Whether `cache` is a valid id table: id 0 is the default set, no set has
/// two ids, and every id fits a `u32`.
pub open spec fn cache_wf(cache: Seq<Attrs>) -> bool {
    &&& cache.len() >= 1
    &&& cache.len() <= u32::MAX
    &&& cache[0] == default_attrs()
    &&& forall|i: int, j: int| 0 <= i < j < cache.len() ==> cache[i] != cache[j]
}

/// The id of `attrs` in `cache`: the position that holds it.
pub open spec fn id_of(cache: Seq<Attrs>, attrs: Attrs) -> int {
    choose|i: int| 0 <= i < cache.len() && cache[i] == attrs
}

/// The cache after interning `attrs`: unchanged when already present,
/// otherwise extended by it.
pub open spec fn interned(cache: Seq<Attrs>, attrs: Attrs) -> Seq<Attrs> {
    if cache.contains(attrs) {
        cache
    } else {
        cache.push(attrs)
    }
}

/// In a valid cache, the id of a present set is the unique position holding it.
pub proof fn lemma_id_of(cache: Seq<Attrs>, i: int)
    requires
        cache_wf(cache),
        0 <= i < cache.len(),
    ensures
        id_of(cache, cache[i]) == i,
{
    let a = cache[i];
    assert(cache.contains(a));
    let j = id_of(cache, a);
    assert(0 <= j < cache.len() && cache[j] == a);
}

/// The cache after interning each of `attrs` in order.
pub open spec fn intern_all(cache: Seq<Attrs>, attrs: Seq<Attrs>) -> Seq<Attrs>
    decreases attrs.len(),
{
    if attrs.len() == 0 {
        cache
    } else {
        interned(intern_all(cache, attrs.drop_last()), attrs.last())
    }
}

/// The `hl_attr` definitions of the ids that `cache` gained over `old`, in id
/// order.
pub open spec fn new_definitions(old: Seq<Attrs>, cache: Seq<Attrs>) -> Seq<EventV> {
    Seq::new(
        (cache.len() - old.len()) as nat,
        |i: int| EventV::HlAttr { id: (old.len() + i) as u32, attrs: cache[old.len() + i] },
    )
}

/// Whether `old` is a prefix of `cache`: every id defined in `old` keeps its
/// attribute set.
pub open spec fn extends(cache: Seq<Attrs>, old: Seq<Attrs>) -> bool {
    old.len() <= cache.len() && cache.subrange(0, old.len() as int) == old
}

/// Interning a sequence only appends: ids already defined keep their sets,
/// every interned set ends up defined, the table stays valid, and it grows by
/// at most one id per interned set.
pub proof fn lemma_intern_all(cache: Seq<Attrs>, attrs: Seq<Attrs>)
    requires
        cache_wf(cache),
        cache.len() + attrs.len() <= u32::MAX,
    ensures
        cache_wf(intern_all(cache, attrs)),
        extends(intern_all(cache, attrs), cache),
        intern_all(cache, attrs).len() <= cache.len() + attrs.len(),
        forall|a: Attrs| cache.contains(a) ==> intern_all(cache, attrs).contains(a),
        forall|k: int| 0 <= k < attrs.len() ==> intern_all(cache, attrs).contains(#[trigger] attrs[k]),
    decreases attrs.len(),
{
    assert(cache.subrange(0, cache.len() as int) =~= cache);
    if attrs.len() > 0 {
        let prefix = attrs.drop_last();
        lemma_intern_all(cache, prefix);
        let mid = intern_all(cache, prefix);
        let a = attrs.last();
        if !mid.contains(a) {
            let next = mid.push(a);
            assert(next.subrange(0, cache.len() as int) =~= mid.subrange(0, cache.len() as int));
            assert forall|x: Attrs| mid.contains(x) implies next.contains(x) by {
                let i = choose|i: int| 0 <= i < mid.len() && mid[i] == x;
                assert(next[i] == x);
            }
            assert(next[mid.len() as int] == a);
            assert(next.subrange(0, cache.len() as int) =~= cache);
        }
        assert forall|k: int| 0 <= k < attrs.len() implies intern_all(cache, attrs).contains(
            #[trigger] attrs[k],
        ) by {
            if k < attrs.len() - 1 {
                assert(prefix[k] == attrs[k]);
            }
        }
    }
}

/// What interning a sequence defines: exactly the sets the table held and the
/// sets interned, each once.
pub proof fn lemma_intern_all_holds(cache: Seq<Attrs>, attrs: Seq<Attrs>)
    requires
        cache_wf(cache),
        cache.len() + attrs.len() <= u32::MAX,
    ensures
        cache_wf(intern_all(cache, attrs)),
        forall|x: Attrs|
            intern_all(cache, attrs).contains(x) <==> (cache.contains(x) || attrs.contains(x)),
    decreases attrs.len(),
{
    lemma_intern_all(cache, attrs);
    if attrs.len() > 0 {
        let prefix = attrs.drop_last();
        lemma_intern_all_holds(cache, prefix);
        let mid = intern_all(cache, prefix);
        let a = attrs.last();
        assert forall|x: Attrs| intern_all(cache, attrs).contains(x) <==> (cache.contains(x)
            || attrs.contains(x)) by {
            if intern_all(cache, attrs).contains(x) {
                let i = choose|i: int| 0 <= i < intern_all(cache, attrs).len() && intern_all(cache, attrs)[i] == x;
                if !mid.contains(a) && i == mid.len() {
                    assert(attrs[attrs.len() - 1] == x);
                } else {
                    assert(mid[i] == x);
                    if prefix.contains(x) {
                        let k = choose|k: int| 0 <= k < prefix.len() && prefix[k] == x;
                        assert(attrs[k] == x);
                    }
                }
            }
            if attrs.contains(x) {
                let k = choose|k: int| 0 <= k < attrs.len() && attrs[k] == x;
                assert(intern_all(cache, attrs).contains(attrs[k]));
            }
        }
    }
}

/// The distinct non-default sets of `attrs`, in the order first seen.
pub open spec fn first_seen(attrs: Seq<Attrs>) -> Seq<Attrs>
    decreases attrs.len(),
{
    if attrs.len() == 0 {
        seq![]
    } else {
        let prior = first_seen(attrs.drop_last());
        let a = attrs.last();
        if a == default_attrs() || prior.contains(a) {
            prior
        } else {
            prior.push(a)
        }
    }
}

proof fn lemma_fresh_table(attrs: Seq<Attrs>)
    ensures
        intern_all(seq![default_attrs()], attrs) == seq![default_attrs()] + first_seen(attrs),
    decreases attrs.len(),
{
    let fresh = seq![default_attrs()];
    if attrs.len() == 0 {
        assert(fresh + Seq::<Attrs>::empty() =~= fresh);
    } else {
        let prefix = attrs.drop_last();
        lemma_fresh_table(prefix);
        let prior = first_seen(prefix);
        let mid = fresh + prior;
        let a = attrs.last();
        assert(mid.contains(a) <==> (a == default_attrs() || prior.contains(a))) by {
            if mid.contains(a) {
                let i = choose|i: int| 0 <= i < mid.len() && mid[i] == a;
                if i > 0 {
                    assert(prior[i - 1] == a);
                }
            }
            if a == default_attrs() {
                assert(mid[0] == a);
            }
            if prior.contains(a) {
                let i = choose|i: int| 0 <= i < prior.len() && prior[i] == a;
                assert(mid[i + 1] == a);
            }
        }
        if !mid.contains(a) {
            assert(mid.push(a) =~= fresh + prior.push(a));
        }
    }
}

/// Interning over a connection: starting from the table that defines only
/// the default set (id 0), the table after interning any sequence of sets is
/// the default set followed by the distinct non-default sets interned, each
/// once, in the order first seen. So the default set keeps id 0, a set keeps
/// the id it first got, distinct sets get distinct ids, and a set not seen
/// before gets id `D + 1`, where `D` is the number of distinct non-default
/// sets interned before it.
pub proof fn lemma_interning_from_fresh(attrs: Seq<Attrs>, a: Attrs)
    requires
        attrs.len() + 1 < u32::MAX,
    ensures
        intern_all(seq![default_attrs()], attrs) == seq![default_attrs()] + first_seen(attrs),
        cache_wf(intern_all(seq![default_attrs()], attrs)),
        forall|x: Attrs|
            intern_all(seq![default_attrs()], attrs).contains(x) <==> (x == default_attrs() || attrs.contains(
                x,
            )),
        a == default_attrs() ==> id_of(interned(intern_all(seq![default_attrs()], attrs), a), a) == 0,
        intern_all(seq![default_attrs()], attrs).contains(a) ==> interned(
            intern_all(seq![default_attrs()], attrs),
            a,
        ) == intern_all(seq![default_attrs()], attrs),
        !intern_all(seq![default_attrs()], attrs).contains(a) ==> {
            &&& interned(intern_all(seq![default_attrs()], attrs), a) == intern_all(
                seq![default_attrs()],
                attrs,
            ).push(a)
            &&& id_of(interned(intern_all(seq![default_attrs()], attrs), a), a) == first_seen(attrs).len()
                + 1
            &&& first_seen(attrs.push(a)) == first_seen(attrs).push(a)
        },
{
    let fresh = seq![default_attrs()];
    assert(cache_wf(fresh));
    lemma_intern_all_holds(fresh, attrs);
    lemma_fresh_table(attrs);
    assert forall|x: Attrs| fresh.contains(x) <==> x == default_attrs() by {
        if fresh.contains(x) {
            let i = choose|i: int| 0 <= i < fresh.len() && fresh[i] == x;
        }
        if x == default_attrs() {
            assert(fresh[0] == x);
        }
    }
    let c = intern_all(fresh, attrs);
    let more = attrs.push(a);
    assert(more.drop_last() =~= attrs);
    lemma_intern_all_holds(fresh, more);
    lemma_fresh_table(more);
    let c2 = interned(c, a);
    assert(c2 == intern_all(fresh, more));
    if a == default_attrs() {
        assert(c.contains(a)) by {
            assert(c[0] == a);
        }
        lemma_id_of(c2, 0);
    }
    if !c.contains(a) {
        lemma_id_of(c2, c.len() as int);
        assert(c2[c.len() as int] == a);
        assert(c.len() == first_seen(attrs).len() + 1);
        assert(!first_seen(attrs).contains(a)) by {
            if first_seen(attrs).contains(a) {
                let i = choose|i: int| 0 <= i < first_seen(attrs).len() && first_seen(attrs)[i] == a;
                assert(c[i + 1] == a);
            }
        }
        assert(a != default_attrs()) by {
            if a == default_attrs() {
                assert(c[0] == a);
            }
        }
    }
}

/// A set already defined keeps its id when the table is extended.
pub proof fn lemma_id_of_extends(old: Seq<Attrs>, cache: Seq<Attrs>, a: Attrs)
    requires
        cache_wf(cache),
        extends(cache, old),
        old.contains(a),
    ensures
        id_of(old, a) == id_of(cache, a),
        cache.contains(a),
{
    let i = id_of(old, a);
    assert(cache.subrange(0, old.len() as int)[i] == cache[i]);
    assert(cache[i] == a);
    lemma_id_of(cache, i);
}

/// Interning one more set adds at most one definition, after the earlier ones.
pub proof fn lemma_new_definitions_step(old: Seq<Attrs>, cache: Seq<Attrs>, a: Attrs)
    requires
        old.len() <= cache.len(),
        cache.len() < u32::MAX,
    ensures
        !cache.contains(a) ==> new_definitions(old, interned(cache, a)) == new_definitions(
            old,
            cache,
        ).push(EventV::HlAttr { id: cache.len() as u32, attrs: a }),
        cache.contains(a) ==> new_definitions(old, interned(cache, a)) == new_definitions(
            old,
            cache,
        ),
{
    if !cache.contains(a) {
        assert(new_definitions(old, interned(cache, a)) =~= new_definitions(old, cache).push(
            EventV::HlAttr { id: cache.len() as u32, attrs: a },
        ));
    }
}

impl View for HlCache {
    type V = Seq<Attrs>;

    closed spec fn view(&self) -> Seq<Attrs> {
        self.entries@
    }
}

impl Default for HlCache {
    /// A fresh cache holding only the default set, as id 0.
    fn default() -> (cache: Self)
        ensures
            cache_wf(cache@),
            cache@ == seq![default_attrs()],
    {
        let mut entries: Vec<Attrs> = Vec::new();
        entries.push(Attrs::default());
        HlCache { entries }
    }
}

/// The default set always has id 0.
pub proof fn lemma_default_is_zero(cache: Seq<Attrs>)
    requires
        cache_wf(cache),
    ensures
        id_of(cache, default_attrs()) == 0,
{
    lemma_id_of(cache, 0);
}

/// Interning is idempotent: interning a set again changes nothing and gives
/// the same id.
pub proof fn lemma_intern_idempotent(cache: Seq<Attrs>, attrs: Attrs)
    ensures
        interned(interned(cache, attrs), attrs) == interned(cache, attrs),
{
    if !cache.contains(attrs) {
        assert(cache.push(attrs)[cache.len() as int] == attrs);
    }
}

/// Distinct sets get distinct ids.
pub proof fn lemma_distinct_ids(cache: Seq<Attrs>, a: Attrs, b: Attrs)
    requires
        cache_wf(cache),
        cache.contains(a),
        cache.contains(b),
        a != b,
    ensures
        id_of(cache, a) != id_of(cache, b),
{
}

impl HlCache {
    /// The cache is a valid id table.
    pub open spec fn wf(&self) -> bool {
        cache_wf(self@)
    }

    /// The number of ids defined so far (the default one included).
    pub fn len(&self) -> (n: usize)
        ensures
            n == self@.len(),
    {
        self.entries.len()
    }

    /// Intern `attrs` to an id, pushing an `hl_attr` event the first time a new
    /// attribute set is seen. Already-defined ids are never re-emitted.
    pub fn intern(&mut self, attrs: &Attrs, out: &mut Vec<Event>) -> (id: u32)
        requires
            old(self).wf(),
            old(self)@.contains(*attrs) || old(self)@.len() < u32::MAX,
        ensures
            final(self).wf(),
            final(self)@ == interned(old(self)@, *attrs),
            id == id_of(final(self)@, *attrs),
            0 <= id < final(self)@.len(),
            final(self)@[id as int] == *attrs,
            old(self)@.contains(*attrs) ==> events_view(final(out)@) == events_view(old(out)@),
            !old(self)@.contains(*attrs) ==> {
                &&& id == old(self)@.len()
                &&& events_view(final(out)@) == events_view(old(out)@).push(
                    EventV::HlAttr { id, attrs: *attrs },
                )
            },
    {
        let n = self.entries.len();
        let mut i: usize = 0;
        while i < n
            invariant
                n == self.entries@.len(),
                self.wf(),
                i <= n,
                forall|j: int| 0 <= j < i ==> self.entries@[j] != *attrs,
            decreases n - i,
        {
            if self.entries[i] == *attrs {
                proof {
                    lemma_id_of(self@, i as int);
                }
                return i as u32;
            }
            i = i + 1;
        }
        let id = n as u32;
        self.entries.push(*attrs);
        push_event(out, Event::HlAttr { id, attrs: *attrs });
        proof {
            assert(!old(self)@.contains(*attrs));
            lemma_id_of(self@, n as int);
        }
        id
    }
}

} // verus!
