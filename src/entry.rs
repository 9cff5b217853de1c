//! Directory entries and the listing order.
use crate::order::{
    bytes_before, lemma_bytes_before_asymmetric, lemma_bytes_before_transitive,
    lemma_insert_at_first, lemma_sort_multiset, lemma_sort_ordered, ordered_by, slice_before,
    sort_in_order, strict_order,
};
use vstd::prelude::*;
use vstd::utf8::encode_utf8;

verus! {

/// What a directory entry resolves to.
#[derive(Clone, Copy, Debug, PartialEq, Eq, Structural)]
pub enum ObjectType {
    File,
    Directory,
}

/// One directory entry as shown: its name, its kind, and the character
/// positions of its name that the active filter matched (empty when no
/// filter is active).
#[derive(Debug)]
pub struct Path {
    pub value: String,
    pub kind: ObjectType,
    pub match_indices: Vec<u32>,
}

/// The mathematical value of a `Path`.
pub struct PathView {
    pub value: Seq<char>,
    pub kind: ObjectType,
    pub match_indices: Seq<u32>,
}

impl View for Path {
    type V = PathView;

    open spec fn view(&self) -> PathView {
        PathView { value: self.value@, kind: self.kind, match_indices: self.match_indices@ }
    }
}

/// The values of a sequence of entries.
pub open spec fn views(s: Seq<Path>) -> Seq<PathView> {
    s.map_values(|p: Path| p@)
}

/// The entry without match positions.
pub open spec fn plain(p: PathView) -> PathView {
    PathView { value: p.value, kind: p.kind, match_indices: seq![] }
}

/// The UTF-8 bytes of an entry's name.
pub open spec fn name_bytes(p: PathView) -> Seq<u8> {
    encode_utf8(p.value)
}

/// Listing order: ascending byte-wise comparison of names.
pub open spec fn by_name() -> spec_fn(PathView, PathView) -> bool {
    |a: PathView, b: PathView| bytes_before(name_bytes(a), name_bytes(b))
}

/// The listing of `entries`: sorted by name, entries of equal names kept in
/// the order given.
pub open spec fn listing_of(entries: Seq<PathView>) -> Seq<PathView> {
    sort_in_order(entries, by_name())
}

/// Names appear in ascending byte order.
pub open spec fn sorted_by_name(s: Seq<PathView>) -> bool {
    ordered_by(s, by_name())
}

/// Name order is a strict order.
pub proof fn lemma_by_name_strict()
    ensures
        strict_order(by_name()),
{
    assert forall|a: PathView, b: PathView| #[trigger] by_name()(a, b) implies !by_name()(b, a) by {
        lemma_bytes_before_asymmetric(name_bytes(a), name_bytes(b));
    }
    assert forall|a: PathView, b: PathView, c: PathView|
        #[trigger] by_name()(a, b) && #[trigger] by_name()(b, c) implies by_name()(a, c) by {
        lemma_bytes_before_transitive(name_bytes(a), name_bytes(b), name_bytes(c));
    }
}

impl Path {
    /// An entry with no match positions.
    pub fn new(value: String, kind: ObjectType) -> (r: Path)
        ensures
            r@ == (PathView { value: value@, kind, match_indices: seq![] }),
    {
        Path { value, kind, match_indices: Vec::new() }
    }

    /// An entry carrying the positions a filter matched.
    pub fn with_match_indices(value: String, kind: ObjectType, match_indices: Vec<u32>) -> (r: Path)
        ensures
            r@ == (PathView { value: value@, kind, match_indices: match_indices@ }),
    {
        Path { value, kind, match_indices }
    }

    /// A copy of this entry without match positions.
    pub fn plain_copy(&self) -> (r: Path)
        ensures
            r@ == plain(self@),
    {
        Path::new(self.value.clone(), self.kind)
    }

    /// Whether this entry's name comes strictly before `other`'s in byte order.
    pub fn name_before(&self, other: &Path) -> (r: bool)
        ensures
            r == by_name()(self@, other@),
    {
        slice_before(self.value.as_str().as_bytes(), other.value.as_str().as_bytes())
    }
}

/// Arranges directory entries in listing order: ascending byte-wise order of
/// name (so upper-case names come before lower-case ones), entries of equal
/// names in the order given. The result holds exactly the given entries.
pub fn sort_by_name(entries: Vec<Path>) -> (r: Vec<Path>)
    ensures
        views(r@) == listing_of(views(entries@)),
        views(r@).to_multiset() == views(entries@).to_multiset(),
        sorted_by_name(views(r@)),
{
    let ghost input = views(entries@);
    let mut out: Vec<Path> = Vec::new();
    let mut rest = entries;
    let ghost mut taken: int = 0;
    proof {
        assert(input.take(0) =~= Seq::<PathView>::empty());
        assert(views(out@) =~= Seq::<PathView>::empty());
    }
    while rest.len() > 0
        invariant
            0 <= taken <= input.len(),
            rest@.len() + taken == input.len(),
            views(rest@) == input.subrange(taken, input.len() as int),
            views(out@) == sort_in_order(input.take(taken), by_name()),
        decreases rest.len(),
    {
        let ghost old_rest = rest@;
        let e = rest.remove(0);
        proof {
            assert(views(old_rest)[0] == input.subrange(taken, input.len() as int)[0]);
            assert(e@ == input[taken]);
            assert(rest@ =~= old_rest.subrange(1, old_rest.len() as int));
            assert forall|k: int| 0 <= k < rest@.len() implies views(rest@)[k]
                == input.subrange(taken + 1, input.len() as int)[k] by {
                assert(views(old_rest)[k + 1] == old_rest[k + 1]@);
            }
            assert(views(rest@) =~= input.subrange(taken + 1, input.len() as int));
        }
        let mut i: usize = 0;
        while i < out.len() && !e.name_before(&out[i])
            invariant
                i <= out.len(),
                forall|k: int| 0 <= k < i ==> !by_name()(e@, #[trigger] views(out@)[k]),
            decreases out.len() - i,
        {
            i = i + 1;
        }
        proof {
            lemma_insert_at_first(views(out@), e@, by_name(), i as int);
            assert(input.take(taken + 1).drop_last() =~= input.take(taken));
            assert(input.take(taken + 1).last() == e@);
        }
        let ghost before = out@;
        out.insert(i, e);
        proof {
            assert(views(out@) =~= views(before).insert(i as int, e@));
            taken = taken + 1;
        }
    }
    proof {
        assert(input.take(taken) =~= input);
        lemma_by_name_strict();
        lemma_sort_ordered(input, by_name());
        lemma_sort_multiset(input, by_name());
    }
    out
}

} // verus!
