//! Typeface store and font collection with fallback resolution.
//!
//! The store indexes typefaces by caller-assigned family-name aliases, in
//! registration order, with several typefaces per alias allowed (style
//! variants). A collection adds an optional system-fallback typeface and
//! a flag that disables fallback entirely (strict mode). Resolution turns
//! a prioritized family-name list into an ordered typeface list; glyph
//! lookup walks it for the first typeface covering a code point. An
//! exhausted walk is a normal outcome, not an error.

use vstd::assert_seqs_equal;
use vstd::prelude::*;

use crate::chars::chars_eq;
use crate::font::Typeface;

verus! {

/// One registration: a typeface under its caller-assigned alias.
pub struct RegisteredFace {
    pub alias: Vec<char>,
    pub face: Typeface,
}

/// Loads typefaces and indexes them by alias, keeping registration order.
pub struct TypefaceStore {
    pub faces: Vec<RegisteredFace>,
}

impl TypefaceStore {
    /// All registered typefaces are well-formed.
    pub open spec fn wf(&self) -> bool {
        forall|i: int| 0 <= i < self.faces@.len() ==> (#[trigger] self.faces@[i]).face.wf()
    }

    /// An empty store.
    pub fn new() -> (r: TypefaceStore)
        ensures
            r.faces@.len() == 0,
            r.wf(),
    {
        TypefaceStore { faces: Vec::new() }
    }

    /// Register a typeface under an alias, after any earlier registrations.
    pub fn register_typeface(&mut self, face: Typeface, alias: Vec<char>)
        requires
            face.wf(),
        ensures
            final(self).faces@ == old(self).faces@.push(RegisteredFace { alias, face }),
            old(self).wf() ==> final(self).wf(),
    {
        let ghost prior = self.faces@;
        self.faces.push(RegisteredFace { alias, face });
        proof {
            assert forall|i: int| 0 <= i < self.faces@.len() implies (
            #[trigger] self.faces@[i]).face.wf() || !old(self).wf() by {
                if i < prior.len() {
                    assert(self.faces@[i] == prior[i]);
                }
            }
        }
    }
}

/// A place a resolved typeface comes from: a registration in the
/// collection's store, or the system-fallback typeface.
#[derive(Clone, Copy, Debug, PartialEq, Eq, Structural)]
pub enum ResolvedFace {
    Asset(usize),
    Fallback,
}

/// Outcome of glyph lookup across a resolved typeface list. `NotFound` is
/// signaled to the layout engine, which renders the code point as a
/// missing-glyph box rather than failing.
#[derive(Clone, Copy, Debug, PartialEq, Eq, Structural)]
pub enum GlyphOutcome {
    Found { face: ResolvedFace, glyph: u32 },
    NotFound,
}

/// A read-only mapping from aliases to typefaces plus an optional
/// system-fallback typeface; built before layout, shared afterward.
pub struct FontCollection {
    pub store: TypefaceStore,
    /// The system fallback manager's default-locale typeface, if a
    /// manager is attached.
    pub fallback: Option<Typeface>,
    /// Strict mode: no fallback consulted, unresolved names skipped.
    pub fallback_disabled: bool,
}

/// Resolved entries under `name`, scanning registrations from index `i` on.
pub open spec fn resolve_name_from(faces: Seq<RegisteredFace>, name: Seq<char>, i: int) -> Seq<
    ResolvedFace,
>
    decreases faces.len() - i,
{
    if i < 0 || i >= faces.len() {
        seq![]
    } else if faces[i].alias@ == name {
        seq![ResolvedFace::Asset(i as usize)] + resolve_name_from(faces, name, i + 1)
    } else {
        resolve_name_from(faces, name, i + 1)
    }
}

/// Resolved entries for the names from index `k` on, concatenated in
/// caller order.
pub open spec fn resolve_names_from(faces: Seq<RegisteredFace>, names: Seq<Vec<char>>, k: int)
    -> Seq<ResolvedFace>
    decreases names.len() - k,
{
    if k < 0 || k >= names.len() {
        seq![]
    } else {
        resolve_name_from(faces, names[k]@, 0) + resolve_names_from(faces, names, k + 1)
    }
}

/// The full resolution model: per-name registrations in caller order; the
/// fallback typeface appended when the name list is empty or nothing
/// resolved, a fallback manager is attached, and fallback is enabled.
pub open spec fn resolve_model(c: FontCollection, names: Seq<Vec<char>>) -> Seq<ResolvedFace> {
    let base = resolve_names_from(c.store.faces@, names, 0);
    if (names.len() == 0 || base.len() == 0) && c.fallback is Some && !c.fallback_disabled {
        base + seq![ResolvedFace::Fallback]
    } else {
        base
    }
}

/// Whether a resolved entry points into the collection.
pub open spec fn entry_wf(c: FontCollection, r: ResolvedFace) -> bool {
    match r {
        ResolvedFace::Asset(i) => i < c.store.faces@.len(),
        ResolvedFace::Fallback => c.fallback is Some,
    }
}

/// The typeface a resolved entry points at; meaningful under `entry_wf`.
pub open spec fn face_of(c: FontCollection, r: ResolvedFace) -> Typeface {
    match r {
        ResolvedFace::Asset(i) => c.store.faces@[i as int].face,
        ResolvedFace::Fallback => c.fallback->Some_0,
    }
}

/// Index into `resolved` of the first typeface covering `cp`, scanning
/// from `j`; -1 when the walk is exhausted.
pub open spec fn first_covering(
    c: FontCollection,
    resolved: Seq<ResolvedFace>,
    cp: char,
    j: int,
) -> int
    decreases resolved.len() - j,
{
    if j < 0 || j >= resolved.len() {
        -1
    } else if face_of(c, resolved[j]).spec_covers(cp) {
        j
    } else {
        first_covering(c, resolved, cp, j + 1)
    }
}

/// The glyph-lookup model over a resolved list.
pub open spec fn glyph_model(c: FontCollection, resolved: Seq<ResolvedFace>, cp: char)
    -> GlyphOutcome {
    let j = first_covering(c, resolved, cp, 0);
    if j >= 0 {
        GlyphOutcome::Found {
            face: resolved[j],
            glyph: face_of(c, resolved[j]).spec_glyph_id(cp) as u32,
        }
    } else {
        GlyphOutcome::NotFound
    }
}

impl FontCollection {
    /// Every typeface reachable through the collection is well-formed.
    pub open spec fn wf(&self) -> bool {
        &&& self.store.wf()
        &&& (self.fallback matches Some(f) ==> f.wf())
    }

    /// An empty collection: no registrations, no fallback manager,
    /// fallback enabled.
    pub fn new() -> (r: FontCollection)
        ensures
            r.store.faces@.len() == 0,
            r.fallback is None,
            !r.fallback_disabled,
            r.wf(),
    {
        FontCollection { store: TypefaceStore::new(), fallback: None, fallback_disabled: false }
    }

    /// Attach the store of registered typefaces.
    pub fn set_asset_store(&mut self, store: TypefaceStore)
        requires
            store.wf(),
        ensures
            final(self).store == store,
            final(self).fallback == old(self).fallback,
            final(self).fallback_disabled == old(self).fallback_disabled,
            old(self).wf() ==> final(self).wf(),
    {
        self.store = store;
    }

    /// Attach a system fallback manager, represented by its
    /// default-locale typeface.
    pub fn set_fallback(&mut self, face: Typeface)
        requires
            face.wf(),
        ensures
            final(self).fallback == Some(face),
            final(self).store == old(self).store,
            final(self).fallback_disabled == old(self).fallback_disabled,
            old(self).wf() ==> final(self).wf(),
    {
        self.fallback = Some(face);
    }

    /// Strict mode: never consult the fallback manager; an unresolved
    /// name is skipped rather than erroring.
    pub fn disable_font_fallback(&mut self)
        ensures
            final(self).fallback_disabled,
            final(self).store == old(self).store,
            final(self).fallback == old(self).fallback,
            old(self).wf() ==> final(self).wf(),
    {
        self.fallback_disabled = true;
    }

    /// Resolve a prioritized family-name list into an ordered typeface
    /// list: all registered variants of each name in registration order,
    /// names in caller order, then the fallback entry when the model
    /// appends one.
    pub fn resolve_family(&self, names: &Vec<Vec<char>>) -> (r: Vec<ResolvedFace>)
        ensures
            r@ == resolve_model(*self, names@),
            forall|j: int| 0 <= j < r@.len() ==> entry_wf(*self, #[trigger] r@[j]),
    {
        let mut out: Vec<ResolvedFace> = Vec::new();
        let nn = names.len();
        let mut k: usize = 0;
        while k < nn
            invariant
                0 <= k <= nn,
                nn == names@.len(),
                out@ + resolve_names_from(self.store.faces@, names@, k as int)
                    == resolve_names_from(self.store.faces@, names@, 0),
                forall|j: int| 0 <= j < out@.len() ==> entry_wf(*self, #[trigger] out@[j]),
            decreases nn - k,
        {
            let name = &names[k];
            let fn_len = self.store.faces.len();
            let mut i: usize = 0;
            while i < fn_len
                invariant
                    0 <= i <= fn_len,
                    fn_len == self.store.faces@.len(),
                    0 <= k < nn,
                    nn == names@.len(),
                    name == &names@[k as int],
                    out@ + resolve_name_from(self.store.faces@, name@, i as int)
                        + resolve_names_from(self.store.faces@, names@, k as int + 1)
                        == resolve_names_from(self.store.faces@, names@, 0),
                    forall|j: int| 0 <= j < out@.len() ==> entry_wf(*self, #[trigger] out@[j]),
                decreases fn_len - i,
            {
                if chars_eq(&self.store.faces[i].alias, name) {
                    out.push(ResolvedFace::Asset(i));
                    proof {
                        assert(seq![ResolvedFace::Asset(i)] + resolve_name_from(
                            self.store.faces@,
                            name@,
                            i as int + 1,
                        ) == resolve_name_from(self.store.faces@, name@, i as int));
                        assert_seqs_equal!(
                            out@ + resolve_name_from(self.store.faces@, name@, i as int + 1),
                            out@.drop_last() + resolve_name_from(self.store.faces@, name@, i as int)
                        );
                    }
                } else {
                    assert(resolve_name_from(self.store.faces@, name@, i as int + 1)
                        == resolve_name_from(self.store.faces@, name@, i as int));
                }
                i = i + 1;
            }
            k = k + 1;
        }
        proof {
            assert(out@ == resolve_names_from(self.store.faces@, names@, 0)) by {
                assert(resolve_names_from(self.store.faces@, names@, nn as int) == Seq::<
                    ResolvedFace,
                >::empty());
                assert_seqs_equal!(
                    out@,
                    out@ + resolve_names_from(self.store.faces@, names@, nn as int)
                );
            }
        }
        if (names.len() == 0 || out.len() == 0) && !self.fallback_disabled {
            if self.fallback.is_some() {
                out.push(ResolvedFace::Fallback);
            }
        }
        out
    }

    /// Walk a resolved list for the first typeface covering `cp`. An
    /// exhausted walk returns `NotFound`: the code point degrades to a
    /// missing-glyph box at layout.
    pub fn glyph_for(&self, resolved: &Vec<ResolvedFace>, cp: char) -> (r: GlyphOutcome)
        requires
            self.wf(),
            forall|j: int| 0 <= j < resolved@.len() ==> entry_wf(*self, #[trigger] resolved@[j]),
        ensures
            r == glyph_model(*self, resolved@, cp),
            r matches GlyphOutcome::Found { face, glyph } ==> entry_wf(*self, face) && face_of(
                *self,
                face,
            ).spec_covers(cp),
    {
        let n = resolved.len();
        let mut j: usize = 0;
        while j < n
            invariant
                0 <= j <= n,
                n == resolved@.len(),
                self.wf(),
                forall|t: int| 0 <= t < n ==> entry_wf(*self, #[trigger] resolved@[t]),
                first_covering(*self, resolved@, cp, 0) == first_covering(
                    *self,
                    resolved@,
                    cp,
                    j as int,
                ),
            decreases n - j,
        {
            let entry = resolved[j];
            let face: &Typeface = match entry {
                ResolvedFace::Asset(i) => &self.store.faces[i].face,
                ResolvedFace::Fallback => match &self.fallback {
                    Some(f) => f,
                    None => {
                        proof {
                            assert(entry_wf(*self, resolved@[j as int]));
                        }
                        unreached()
                    },
                },
            };
            assert(*face == face_of(*self, resolved@[j as int]));
            match face.glyph_for(cp) {
                Some(g) => {
                    return GlyphOutcome::Found { face: entry, glyph: g };
                },
                None => {},
            }
            j = j + 1;
        }
        GlyphOutcome::NotFound
    }

    /// The typeface a well-formed resolved entry points at.
    pub fn face_ref(&self, entry: ResolvedFace) -> (r: &Typeface)
        requires
            entry_wf(*self, entry),
        ensures
            *r == face_of(*self, entry),
    {
        match entry {
            ResolvedFace::Asset(i) => &self.store.faces[i].face,
            ResolvedFace::Fallback => match &self.fallback {
                Some(f) => f,
                None => unreached(),
            },
        }
    }
}

/// Entries resolved for one name are all registrations, carry indices at
/// least `k`, and appear in strictly increasing registration order.
proof fn lemma_resolve_name_sorted(faces: Seq<RegisteredFace>, name: Seq<char>, k: int)
    requires
        0 <= k,
        faces.len() <= usize::MAX,
    ensures
        forall|j: int|
            0 <= j < resolve_name_from(faces, name, k).len() ==> (
            #[trigger] resolve_name_from(faces, name, k)[j]) is Asset,
        forall|j: int|
            0 <= j < resolve_name_from(faces, name, k).len() ==> k <= (#[trigger] resolve_name_from(
                faces,
                name,
                k,
            )[j])->Asset_0 < faces.len(),
        forall|j1: int, j2: int|
            0 <= j1 < j2 < resolve_name_from(faces, name, k).len() ==> (#[trigger] resolve_name_from(
                faces,
                name,
                k,
            )[j1])->Asset_0 < (#[trigger] resolve_name_from(faces, name, k)[j2])->Asset_0,
    decreases faces.len() - k,
{
    if k < faces.len() {
        lemma_resolve_name_sorted(faces, name, k + 1);
        let r = resolve_name_from(faces, name, k);
        let sub = resolve_name_from(faces, name, k + 1);
        if faces[k].alias@ == name {
            assert(r == seq![ResolvedFace::Asset(k as usize)] + sub);
            assert forall|j: int| 0 <= j < r.len() implies (#[trigger] r[j]) is Asset && k <= r[j]->Asset_0
                < faces.len() by {
                if j > 0 {
                    assert(r[j] == sub[j - 1]);
                } else {
                    assert(r[j] == ResolvedFace::Asset(k as usize));
                }
            }
            assert forall|j1: int, j2: int| 0 <= j1 < j2 < r.len() implies (
            #[trigger] r[j1])->Asset_0 < (#[trigger] r[j2])->Asset_0 by {
                if j1 > 0 {
                    assert(r[j1] == sub[j1 - 1]);
                }
                assert(r[j2] == sub[j2 - 1]);
            }
        }
    }
}

/// Every registration whose alias matches is among the entries resolved
/// for that alias.
proof fn lemma_resolve_name_contains(faces: Seq<RegisteredFace>, name: Seq<char>, k: int, i: int)
    requires
        0 <= k <= i < faces.len(),
        faces.len() <= usize::MAX,
        faces[i].alias@ == name,
    ensures
        resolve_name_from(faces, name, k).contains(ResolvedFace::Asset(i as usize)),
    decreases i - k,
{
    let r = resolve_name_from(faces, name, k);
    if k == i {
        assert(r[0] == ResolvedFace::Asset(i as usize));
    } else {
        lemma_resolve_name_contains(faces, name, k + 1, i);
        let sub = resolve_name_from(faces, name, k + 1);
        let t = choose|t: int| 0 <= t < sub.len() && sub[t] == ResolvedFace::Asset(i as usize);
        if faces[k].alias@ == name {
            assert(r[t + 1] == ResolvedFace::Asset(i as usize));
        } else {
            assert(r[t] == ResolvedFace::Asset(i as usize));
        }
    }
}

/// Entries resolved for a name list are all registrations with valid
/// indices.
proof fn lemma_resolve_names_entries(faces: Seq<RegisteredFace>, names: Seq<Vec<char>>, k: int)
    requires
        faces.len() <= usize::MAX,
    ensures
        forall|j: int|
            0 <= j < resolve_names_from(faces, names, k).len() ==> (#[trigger] resolve_names_from(
                faces,
                names,
                k,
            )[j]) is Asset && resolve_names_from(faces, names, k)[j]->Asset_0 < faces.len(),
    decreases names.len() - k,
{
    if 0 <= k < names.len() {
        lemma_resolve_name_sorted(faces, names[k]@, 0);
        lemma_resolve_names_entries(faces, names, k + 1);
        let whole = resolve_names_from(faces, names, k);
        let head = resolve_name_from(faces, names[k]@, 0);
        let rest = resolve_names_from(faces, names, k + 1);
        assert forall|j: int| 0 <= j < whole.len() implies (#[trigger] whole[j]) is Asset
            && whole[j]->Asset_0 < faces.len() by {
            if j < head.len() {
                assert(whole[j] == head[j]);
            } else {
                assert(whole[j] == rest[j - head.len()]);
            }
        }
    }
}

/// Every entry of the resolution model points into the collection.
pub proof fn lemma_resolve_model_wf(c: FontCollection, names: Seq<Vec<char>>)
    ensures
        forall|j: int|
            0 <= j < resolve_model(c, names).len() ==> entry_wf(
                c,
                #[trigger] resolve_model(c, names)[j],
            ),
{
    vstd::std_specs::vec::axiom_spec_len(&c.store.faces);
    lemma_resolve_names_entries(c.store.faces@, names, 0);
    let base = resolve_names_from(c.store.faces@, names, 0);
    let r = resolve_model(c, names);
    assert forall|j: int| 0 <= j < r.len() implies entry_wf(c, #[trigger] r[j]) by {
        if j < base.len() {
            assert(r[j] == base[j]);
        }
    }
}

/// A found covering index is in bounds and its typeface covers the code
/// point.
pub proof fn lemma_first_covering_valid(
    c: FontCollection,
    resolved: Seq<ResolvedFace>,
    cp: char,
    j: int,
)
    requires
        0 <= j,
    ensures
        ({
            let r = first_covering(c, resolved, cp, j);
            r >= 0 ==> j <= r < resolved.len() && face_of(c, resolved[r]).spec_covers(cp)
        }),
    decreases resolved.len() - j,
{
    if j < resolved.len() && !face_of(c, resolved[j]).spec_covers(cp) {
        lemma_first_covering_valid(c, resolved, cp, j + 1);
    }
}

/// With fallback disabled or no fallback manager attached, resolution
/// yields registrations only, each with a valid index.
pub proof fn lemma_resolve_model_no_fallback(c: FontCollection, names: Seq<Vec<char>>)
    requires
        c.fallback_disabled || c.fallback is None,
    ensures
        forall|j: int|
            0 <= j < resolve_model(c, names).len() ==> (#[trigger] resolve_model(c, names)[j]) is Asset
                && resolve_model(c, names)[j]->Asset_0 < c.store.faces@.len(),
{
    vstd::std_specs::vec::axiom_spec_len(&c.store.faces);
    lemma_resolve_names_entries(c.store.faces@, names, 0);
}

/// Law: for every registered (alias, typeface) pair, resolving that alias
/// alone yields a list that includes the registration, keeps registration
/// order among all included registrations, and places every registration
/// before any fallback-manager entry.
pub proof fn lemma_registration_resolves_in_order(c: FontCollection, i: int)
    requires
        0 <= i < c.store.faces@.len(),
    ensures
        ({
            let r = resolve_model(c, seq![c.store.faces@[i].alias]);
            &&& r.contains(ResolvedFace::Asset(i as usize))
            &&& forall|j1: int, j2: int|
                0 <= j1 < j2 < r.len() && (#[trigger] r[j1]) is Asset && (#[trigger] r[j2]) is Asset
                    ==> r[j1]->Asset_0 < r[j2]->Asset_0
            &&& forall|j1: int, j2: int|
                0 <= j1 < r.len() && 0 <= j2 < r.len() && (#[trigger] r[j1]) is Fallback && (
                #[trigger] r[j2]) is Asset ==> j2 < j1
        }),
{
    vstd::std_specs::vec::axiom_spec_len(&c.store.faces);
    let faces = c.store.faces@;
    let name = faces[i].alias@;
    let names: Seq<Vec<char>> = seq![faces[i].alias];
    let base0 = resolve_name_from(faces, name, 0);
    let base = resolve_names_from(faces, names, 0);
    assert(resolve_names_from(faces, names, 1) =~= Seq::<ResolvedFace>::empty());
    assert(base =~= base0);
    lemma_resolve_name_sorted(faces, name, 0);
    lemma_resolve_name_contains(faces, name, 0, i);
    let r = resolve_model(c, names);
    let t = choose|t: int| 0 <= t < base0.len() && base0[t] == ResolvedFace::Asset(i as usize);
    assert(r[t] == ResolvedFace::Asset(i as usize));
    assert forall|j1: int, j2: int|
        0 <= j1 < j2 < r.len() && (#[trigger] r[j1]) is Asset && (
    #[trigger] r[j2]) is Asset implies r[j1]->Asset_0 < r[j2]->Asset_0 by {
        assert(j2 < base0.len() || r[j2] is Fallback);
        assert(r[j1] == base0[j1] && r[j2] == base0[j2]);
    }
    assert forall|j1: int, j2: int|
        0 <= j1 < r.len() && 0 <= j2 < r.len() && (#[trigger] r[j1]) is Fallback && (
    #[trigger] r[j2]) is Asset implies j2 < j1 by {
        assert(j1 >= base0.len());
        assert(j2 < base0.len() || r[j2] is Fallback);
    }
}

} // verus!
