//! The recipe catalog: a named, read-only mapping from version label to
//! artifact descriptor, with resolution of explicit and latest-version
//! requests. "Latest" means the greatest label in byte-wise lexicographic
//! order, the order an ordered map iterates its string keys in.

use vstd::prelude::*;
use vstd::utf8::encode_utf8;

use crate::error::Error;
use crate::source::{Source, SourceV};
use crate::util::{
    bytes_eq, bytes_lt, lemma_lex_antisymmetric, lemma_lex_total, lemma_lex_trans, lex_le,
    lex_lt,
};

verus! {

/// A version request: the latest defined version, or an explicit label.
#[derive(Debug)]
pub enum RecipeVersion {
    Latest,
    Version(String),
}

/// UTF-8 encoding is injective: equal encodings come from equal texts.
pub proof fn lemma_utf8_injective(a: Seq<char>, b: Seq<char>)
    requires
        encode_utf8(a) == encode_utf8(b),
    ensures
        a == b,
{
    vstd::utf8::encode_utf8_decode_utf8(a);
    vstd::utf8::encode_utf8_decode_utf8(b);
}

/// The mapping denoted by a list of labelled descriptors, a later entry for
/// the same label replacing an earlier one.
pub open spec fn map_of(es: Seq<(Seq<char>, SourceV)>) -> Map<Seq<char>, SourceV>
    decreases es.len(),
{
    if es.len() == 0 {
        Map::empty()
    } else {
        map_of(es.drop_last()).insert(es.last().0, es.last().1)
    }
}

/// Labels are pairwise distinct.
pub open spec fn labels_unique(es: Seq<(Seq<char>, SourceV)>) -> bool {
    forall|i: int, j: int| 0 <= i < j < es.len() ==> (#[trigger] es[i]).0 != (
    #[trigger] es[j]).0
}

/// `k` is a defined label and no defined label is above it.
pub open spec fn is_greatest(keys: Seq<Seq<char>>, k: Seq<char>) -> bool {
    &&& keys.contains(k)
    &&& forall|i: int| 0 <= i < keys.len() ==> lex_le(
        encode_utf8(#[trigger] keys[i]),
        encode_utf8(k),
    )
}

/// Two labels that are both defined and both rank at or above every defined
/// label are the same label: a catalog has at most one greatest version.
pub proof fn lemma_greatest_key_unique(m: Map<Seq<char>, SourceV>, k1: Seq<char>, k2: Seq<char>)
    requires
        m.contains_key(k1),
        m.contains_key(k2),
        forall|k: Seq<char>| #[trigger] m.contains_key(k) ==> lex_le(
            encode_utf8(k),
            encode_utf8(k1),
        ),
        forall|k: Seq<char>| #[trigger] m.contains_key(k) ==> lex_le(
            encode_utf8(k),
            encode_utf8(k2),
        ),
    ensures
        k1 == k2,
{
    lemma_lex_antisymmetric(encode_utf8(k1), encode_utf8(k2));
    lemma_utf8_injective(k1, k2);
}

/// A key present in the mapping denoted by `es` is the label of some entry.
pub proof fn lemma_map_of_contains(es: Seq<(Seq<char>, SourceV)>, k: Seq<char>)
    requires
        map_of(es).contains_key(k),
    ensures
        exists|i: int| 0 <= i < es.len() && (#[trigger] es[i]).0 == k,
    decreases es.len(),
{
    if es.len() > 0 {
        if es.last().0 == k {
            assert(es[es.len() - 1].0 == k);
        } else {
            lemma_map_of_contains(es.drop_last(), k);
            let i = choose|i: int| 0 <= i < es.drop_last().len() && (#[trigger] es.drop_last()[i]).0 == k;
            assert(es[i].0 == k);
        }
    }
}

/// With distinct labels, the mapping sends each entry's label to its value.
pub proof fn lemma_map_of_index(es: Seq<(Seq<char>, SourceV)>, j: int)
    requires
        labels_unique(es),
        0 <= j < es.len(),
    ensures
        map_of(es).contains_key(es[j].0),
        map_of(es)[es[j].0] == es[j].1,
    decreases es.len(),
{
    if j == es.len() - 1 {
    } else {
        assert(labels_unique(es.drop_last()));
        lemma_map_of_index(es.drop_last(), j);
        assert(es.last().0 != es[j].0);
    }
}

/// Replacing the entry that holds a label denotes the same mapping as
/// inserting the new value for that label.
proof fn lemma_map_of_update(es: Seq<(Seq<char>, SourceV)>, j: int, v: SourceV)
    requires
        labels_unique(es),
        0 <= j < es.len(),
    ensures
        map_of(es.update(j, (es[j].0, v))) == map_of(es).insert(es[j].0, v),
    decreases es.len(),
{
    let k = es[j].0;
    let t = es.update(j, (k, v));
    if j == es.len() - 1 {
        assert(t.drop_last() =~= es.drop_last());
        assert(map_of(t) =~= map_of(es).insert(k, v));
    } else {
        assert(labels_unique(es.drop_last()));
        lemma_map_of_update(es.drop_last(), j, v);
        assert(t.drop_last() =~= es.drop_last().update(j, (k, v)));
        assert(t.last() == es.last());
        assert(es.last().0 != k);
        assert(map_of(t) =~= map_of(es).insert(k, v));
    }
}

/// Appending an entry with a fresh label denotes inserting it.
proof fn lemma_map_of_push(es: Seq<(Seq<char>, SourceV)>, k: Seq<char>, v: SourceV)
    ensures
        map_of(es.push((k, v))) == map_of(es).insert(k, v),
{
    assert(es.push((k, v)).drop_last() =~= es);
}

/// A named, read-only catalog of artifact descriptors keyed by version label.
pub struct Ingredients {
    name: String,
    sources: Vec<(String, Source)>,
}

impl Ingredients {
    /// The labelled descriptors, in storage order.
    pub closed spec fn entries_view(self) -> Seq<(Seq<char>, SourceV)> {
        self.sources@.map_values(|p: (String, Source)| (p.0@, p.1@))
    }

    /// The defined version labels, in storage order: exactly the labels of
    /// the entries, one per entry.
    pub open spec fn versions_view(self) -> Seq<Seq<char>> {
        self.entries_view().map_values(|p: (Seq<char>, SourceV)| p.0)
    }

    /// The catalog's name.
    pub closed spec fn name_view(self) -> Seq<char> {
        self.name@
    }

    /// The mapping from version label to descriptor.
    pub open spec fn sources_map(self) -> Map<Seq<char>, SourceV> {
        map_of(self.entries_view())
    }

    #[verifier::type_invariant]
    spec fn inv(self) -> bool {
        labels_unique(self.entries_view())
    }

    /// Builds a catalog from labelled descriptors. A later entry for an
    /// already-seen label replaces the earlier one, as inserting into an
    /// ordered map would.
    pub fn new(name: String, entries: Vec<(String, Source)>) -> (r: Ingredients)
        ensures
            r.name_view() == name@,
            r.sources_map() == map_of(
                entries@.map_values(|p: (String, Source)| (p.0@, p.1@)),
            ),
            labels_unique(r.entries_view()),
            r.entries_view().len() == 0 <==> entries@.len() == 0,
    {
        let ghost all = entries@.map_values(|p: (String, Source)| (p.0@, p.1@));
        let mut rest = entries;
        let mut sources: Vec<(String, Source)> = Vec::new();
        while rest.len() > 0
            invariant
                rest@.len() <= all.len(),
                rest@.map_values(|p: (String, Source)| (p.0@, p.1@)) =~= all.skip(
                    all.len() - rest@.len(),
                ),
                labels_unique(sources@.map_values(|p: (String, Source)| (p.0@, p.1@))),
                map_of(sources@.map_values(|p: (String, Source)| (p.0@, p.1@))) == map_of(
                    all.take(all.len() - rest@.len()),
                ),
            decreases rest@.len(),
        {
            let ghost done = all.len() - rest@.len();
            let ghost sv = sources@.map_values(|p: (String, Source)| (p.0@, p.1@));
            let ghost old_rest = rest@;
            let (k, v) = rest.remove(0);
            proof {
                assert(old_rest.map_values(|p: (String, Source)| (p.0@, p.1@))[0] == all.skip(
                    done,
                )[0]);
                assert(all.skip(done)[0] == (k@, v@));
                assert(rest@ =~= old_rest.skip(1));
                assert forall|j: int| 0 <= j < rest@.len() implies (rest@.map_values(
                    |p: (String, Source)| (p.0@, p.1@),
                ))[j] == #[trigger] all.skip(done + 1)[j] by {
                    assert(rest@[j] == old_rest[j + 1]);
                    assert(old_rest.map_values(|p: (String, Source)| (p.0@, p.1@))[j + 1]
                        == all.skip(done)[j + 1]);
                }
                assert(rest@.map_values(|p: (String, Source)| (p.0@, p.1@)) =~= all.skip(
                    done + 1,
                ));
                assert(all.take(done + 1).drop_last() =~= all.take(done));
                assert(all.take(done + 1).last() == (k@, v@));
            }
            let n = sources.len();
            let mut i: usize = 0;
            let mut found = false;
            while i < n && !found
                invariant
                    n == sources@.len(),
                    i <= n,
                    sv == sources@.map_values(|p: (String, Source)| (p.0@, p.1@)),
                    !found ==> forall|j: int| 0 <= j < i ==> (#[trigger] sources@[j]).0@
                        != k@,
                    found ==> i < n && sources@[i as int].0@ == k@,
                decreases n - i + (if found { 0int } else { 1int }),
            {
                if bytes_eq(sources[i].0.as_str().as_bytes(), k.as_str().as_bytes()) {
                    proof {
                        lemma_utf8_injective(sources@[i as int].0@, k@);
                    }
                    found = true;
                } else {
                    i += 1;
                }
            }
            if found {
                sources.remove(i);
                sources.insert(i, (k, v));
                proof {
                    assert(sources@.map_values(|p: (String, Source)| (p.0@, p.1@)) =~= sv
                        .update(i as int, (sv[i as int].0, v@)));
                    lemma_map_of_update(sv, i as int, v@);
                    assert(labels_unique(sv.update(i as int, (sv[i as int].0, v@))));
                }
            } else {
                sources.push((k, v));
                proof {
                    assert(sources@.map_values(|p: (String, Source)| (p.0@, p.1@)) =~= sv
                        .push((k@, v@)));
                    lemma_map_of_push(sv, k@, v@);
                    assert(labels_unique(sv.push((k@, v@))));
                }
            }
        }
        proof {
            assert(all.take(all.len() as int) =~= all);
            let sv = sources@.map_values(|p: (String, Source)| (p.0@, p.1@));
            if all.len() > 0 {
                assert(map_of(all).contains_key(all.last().0));
                lemma_map_of_contains(sv, all.last().0);
            } else if sv.len() > 0 {
                lemma_map_of_index(sv, 0);
                assert(map_of(all) == Map::<Seq<char>, SourceV>::empty());
                assert(false);
            }
        }
        Ingredients { name, sources }
    }

    /// The index of the greatest version label, if any label is defined.
    fn latest_index(&self) -> (r: Option<usize>)
        ensures
            r is Some <==> self.versions_view().len() > 0,
            r matches Some(i) ==> i < self.versions_view().len() && is_greatest(
                self.versions_view(),
                self.versions_view()[i as int],
            ),
    {
        let n = self.sources.len();
        if n == 0 {
            return None;
        }
        let mut best: usize = 0;
        let mut i: usize = 1;
        while i < n
            invariant
                n == self.sources@.len(),
                best < i <= n,
                forall|j: int| 0 <= j < i ==> lex_le(
                    encode_utf8(self.versions_view()[j]),
                    encode_utf8(self.versions_view()[best as int]),
                ),
            decreases n - i,
        {
            let ghost kb = encode_utf8(self.versions_view()[best as int]);
            let ghost ki = encode_utf8(self.versions_view()[i as int]);
            if bytes_lt(self.sources[best].0.as_str().as_bytes(), self.sources[i].0.as_str().as_bytes()) {
                proof {
                    assert forall|j: int| 0 <= j < i + 1 implies lex_le(
                        encode_utf8(self.versions_view()[j]),
                        ki,
                    ) by {
                        let kj = encode_utf8(self.versions_view()[j]);
                        if j < i && lex_lt(kj, kb) {
                            lemma_lex_trans(kj, kb, ki);
                        }
                    }
                }
                best = i;
            } else {
                proof {
                    lemma_lex_total(ki, kb);
                }
            }
            i += 1;
        }
        proof {
            assert(self.versions_view().contains(self.versions_view()[best as int]));
        }
        Some(best)
    }

    /// The greatest version label this catalog defines, if any: a defined
    /// key of the sources mapping that every defined key ranks at or below.
    pub fn get_latest_version(&self) -> (r: Option<String>)
        ensures
            r is Some <==> self.versions_view().len() > 0,
            r matches Some(s) ==> {
                &&& is_greatest(self.versions_view(), s@)
                &&& self.sources_map().contains_key(s@)
                &&& forall|k: Seq<char>| #[trigger] self.sources_map().contains_key(k)
                    ==> lex_le(encode_utf8(k), encode_utf8(s@))
            },
    {
        match self.latest_index() {
            Some(i) => {
                proof {
                    use_type_invariant(&*self);
                    assert(self.entries_view()[i as int].0 == self.sources@[i as int].0@);
                    assert(self.versions_view()[i as int] == self.entries_view()[i as int].0);
                    lemma_map_of_index(self.entries_view(), i as int);
                    assert forall|k: Seq<char>| #[trigger] self.sources_map().contains_key(k)
                        implies lex_le(
                        encode_utf8(k),
                        encode_utf8(self.versions_view()[i as int]),
                    ) by {
                        lemma_map_of_contains(self.entries_view(), k);
                        let j = choose|j: int| 0 <= j < self.entries_view().len() && (
                        #[trigger] self.entries_view()[j]).0 == k;
                        assert(self.versions_view()[j] == k);
                    }
                }
                Some(self.sources[i].0.clone())
            },
            None => None,
        }
    }

    /// Every defined version label, in the catalog's storage order; display
    /// ordering is the consumer's concern. A label appears exactly once, and
    /// exactly when it is a key of the sources mapping.
    pub fn available_versions(&self) -> (r: Vec<String>)
        ensures
            r@.map_values(|s: String| s@) == self.versions_view(),
            forall|i: int, j: int| 0 <= i < j < r@.len() ==> (#[trigger] r@[i])@ != (
            #[trigger] r@[j])@,
            forall|k: Seq<char>| #[trigger] self.sources_map().contains_key(k) <==> exists|i: int|
                0 <= i < r@.len() && (#[trigger] r@[i])@ == k,
    {
        let n = self.sources.len();
        let mut out: Vec<String> = Vec::with_capacity(n);
        let mut i: usize = 0;
        while i < n
            invariant
                n == self.sources@.len(),
                i <= n,
                out@.len() == i,
                out@.map_values(|s: String| s@) =~= self.versions_view().take(i as int),
            decreases n - i,
        {
            let ghost prev = out@;
            out.push(self.sources[i].0.clone());
            proof {
                assert forall|j: int| 0 <= j < i + 1 implies (out@.map_values(
                    |s: String| s@,
                ))[j] == #[trigger] self.versions_view().take(i as int + 1)[j] by {
                    if j < i {
                        assert(out@[j] == prev[j]);
                        assert(prev.map_values(|s: String| s@)[j] == self.versions_view()
                            .take(i as int)[j]);
                    } else {
                        assert(out@[j]@ == self.sources@[i as int].0@);
                    }
                }
                assert(out@.map_values(|s: String| s@) =~= self.versions_view().take(
                    i as int + 1,
                ));
            }
            i += 1;
        }
        proof {
            use_type_invariant(&*self);
            assert(self.versions_view().take(n as int) =~= self.versions_view());
            assert forall|a: int, b: int| 0 <= a < b < out@.len() implies (#[trigger] out@[a])@
                != (#[trigger] out@[b])@ by {
                assert(out@.map_values(|s: String| s@)[a] == self.versions_view()[a]);
                assert(out@.map_values(|s: String| s@)[b] == self.versions_view()[b]);
                assert(self.versions_view()[a] == self.entries_view()[a].0);
                assert(self.versions_view()[b] == self.entries_view()[b].0);
            }
            assert forall|k: Seq<char>| #[trigger] self.sources_map().contains_key(k)
                implies exists|a: int| 0 <= a < out@.len() && (#[trigger] out@[a])@ == k by {
                lemma_map_of_contains(self.entries_view(), k);
                let j = choose|j: int| 0 <= j < self.entries_view().len() && (
                #[trigger] self.entries_view()[j]).0 == k;
                assert(out@.map_values(|s: String| s@)[j] == self.versions_view()[j]);
                assert((out@[j])@ == k);
            }
            assert forall|k: Seq<char>| (exists|a: int| 0 <= a < out@.len() && (
            #[trigger] out@[a])@ == k) implies #[trigger] self.sources_map().contains_key(
                k,
            ) by {
                let a = choose|a: int| 0 <= a < out@.len() && (#[trigger] out@[a])@ == k;
                assert(out@.map_values(|s: String| s@)[a] == self.versions_view()[a]);
                assert(self.entries_view()[a].0 == k);
                lemma_map_of_index(self.entries_view(), a);
            }
        }
        out
    }

    /// Resolves a version request to a descriptor: an explicit label to its
    /// entry or `UnknownVersion`, `Latest` to the entry at the greatest label
    /// or `NoVersionsAvailable` when none is defined.
    pub fn get_source(&self, recipe_version: &RecipeVersion) -> (r: Result<&Source, Error>)
        ensures
            recipe_version is Latest && self.versions_view().len() == 0 ==> r == Err::<
                &Source,
                Error,
            >(Error::NoVersionsAvailable),
            recipe_version is Latest && self.versions_view().len() > 0 ==> (r matches Ok(s)
                && exists|k: Seq<char>| {
                &&& #[trigger] self.sources_map().contains_key(k)
                &&& forall|k2: Seq<char>| #[trigger] self.sources_map().contains_key(k2)
                    ==> lex_le(encode_utf8(k2), encode_utf8(k))
                &&& s@ == self.sources_map()[k]
            }),
            recipe_version is Version && self.sources_map().contains_key(
                recipe_version->Version_0@,
            ) ==> (r matches Ok(s) && s@ == self.sources_map()[recipe_version->Version_0@]),
            recipe_version is Version && !self.sources_map().contains_key(
                recipe_version->Version_0@,
            ) ==> r == Err::<&Source, Error>(Error::UnknownVersion),
    {
        proof {
            use_type_invariant(&*self);
        }
        match recipe_version {
            RecipeVersion::Latest => {
                match self.latest_index() {
                    None => Err(Error::NoVersionsAvailable),
                    Some(i) => {
                        proof {
                            lemma_map_of_index(self.entries_view(), i as int);
                            let ghost k = self.versions_view()[i as int];
                            assert(self.entries_view()[i as int] == (
                                self.sources@[i as int].0@,
                                self.sources@[i as int].1@,
                            ));
                            assert(self.entries_view()[i as int].0 == k);
                            assert(is_greatest(self.versions_view(), k));
                            assert(self.sources_map().contains_key(k));
                            assert(self.sources_map()[k] == self.sources@[i as int].1@);
                            assert forall|k2: Seq<char>| #[trigger] self.sources_map()
                                .contains_key(k2) implies lex_le(
                                encode_utf8(k2),
                                encode_utf8(k),
                            ) by {
                                lemma_map_of_contains(self.entries_view(), k2);
                                let j = choose|j: int| 0 <= j < self.entries_view().len()
                                    && (#[trigger] self.entries_view()[j]).0 == k2;
                                assert(self.versions_view()[j] == k2);
                            }
                        }
                        Ok(&self.sources[i].1)
                    },
                }
            },
            RecipeVersion::Version(v) => {
                let n = self.sources.len();
                let mut i: usize = 0;
                while i < n
                    invariant
                        n == self.sources@.len(),
                        labels_unique(self.entries_view()),
                        recipe_version is Version,
                        recipe_version->Version_0@ == v@,
                        forall|j: int| 0 <= j < i ==> (#[trigger] self.entries_view()[j]).0
                            != v@,
                        i <= n,
                    decreases n - i,
                {
                    if bytes_eq(self.sources[i].0.as_str().as_bytes(), v.as_str().as_bytes()) {
                        proof {
                            assert(self.entries_view()[i as int] == (
                                self.sources@[i as int].0@,
                                self.sources@[i as int].1@,
                            ));
                            lemma_utf8_injective(self.entries_view()[i as int].0, v@);
                            lemma_map_of_index(self.entries_view(), i as int);
                            assert(self.sources_map()[v@] == self.sources@[i as int].1@);
                        }
                        let res = &self.sources[i].1;
                        proof {
                            assert(res@ == self.sources@[i as int].1@);
                            assert(self.sources_map().contains_key(v@));
                            assert(res@ == self.sources_map()[v@]);
                        }
                        return Ok(res);
                    }
                    i += 1;
                }
                proof {
                    if self.sources_map().contains_key(v@) {
                        lemma_map_of_contains(self.entries_view(), v@);
                    }
                }
                Err(Error::UnknownVersion)
            },
        }
    }

    /// Every descriptor the catalog defines, regardless of version, in
    /// storage order: one per defined version label.
    pub fn get_all_sources(&self) -> (r: Vec<&Source>)
        ensures
            r@.len() == self.entries_view().len(),
            r@.len() == self.versions_view().len(),
            forall|i: int| 0 <= i < r@.len() ==> (#[trigger] r@[i])@ == self.entries_view()[
                i].1,
    {
        let n = self.sources.len();
        let mut out: Vec<&Source> = Vec::with_capacity(n);
        let mut i: usize = 0;
        while i < n
            invariant
                n == self.sources@.len(),
                i <= n,
                out@.len() == i,
                forall|j: int| 0 <= j < i ==> (#[trigger] out@[j])@ == self.entries_view()[
                    j].1,
            decreases n - i,
        {
            out.push(&self.sources[i].1);
            i += 1;
        }
        out
    }
}

} // verus!
