//! Spelling variants across English locales (VarCon clusters).

use vstd::prelude::*;

pub mod borrowed;
pub mod parser;

verus! {

/// A group of related entries, with its header line.
#[derive(Debug, PartialEq, Eq)]
pub struct Cluster {
    pub header: String,
    pub verified: bool,
    pub level: usize,
    pub entries: Vec<Entry>,
    pub notes: Vec<String>,
}

/// Variants of one word.
#[derive(Debug, PartialEq, Eq)]
pub struct Entry {
    pub variants: Vec<Variant>,
    pub pos: Option<Pos>,
    pub archaic: bool,
    pub description: Option<String>,
    pub note: Option<String>,
    pub comment: Option<String>,
}

/// A spelling and the locales it belongs to.
#[derive(Debug, PartialEq, Eq)]
pub struct Variant {
    pub types: Vec<Type>,
    pub word: String,
}

/// How a spelling belongs to a locale.
#[derive(Debug, Clone, Copy, PartialEq, Eq, Structural)]
pub struct Type {
    pub category: Category,
    pub tag: Option<Tag>,
    pub num: Option<usize>,
}

#[derive(Debug, Clone, Copy, PartialEq, Eq, Structural)]
pub enum Category {
    American,
    BritishIse,
    BritishIze,
    Canadian,
    Australian,
    Other,
}

#[derive(Debug, Clone, Copy, PartialEq, Eq, Structural)]
pub enum Tag {
    Eq,
    Variant,
    Seldom,
    Possible,
    Improper,
}

#[derive(Debug, Clone, Copy, PartialEq, Eq, Structural)]
pub enum Pos {
    Noun,
    Verb,
    Adjective,
    Adverb,
    AdjectiveOrAdverb,
    Interjection,
    Preposition,
}

/// The types of a variant.
pub open spec fn types_of(v: Variant) -> Seq<Type> {
    v.types@
}

/// Whether some type of the variants is in the category.
pub open spec fn has_category(variants: Seq<Seq<Type>>, c: Category) -> bool {
    exists|i: int, j: int|
        0 <= i < variants.len() && 0 <= j < variants[i].len() && (#[trigger] variants[i][j]).category
            == c
}

/// The types of category `required`, moved to category `missing`.
pub open spec fn retagged(types: Seq<Type>, required: Category, missing: Category) -> Seq<Type>
    decreases types.len(),
{
    if types.len() == 0 {
        seq![]
    } else {
        (if types[0].category == required {
            seq![Type { category: missing, ..types[0] }]
        } else {
            seq![]
        }) + retagged(types.drop_first(), required, missing)
    }
}

/// A spelling in `required` is also in `missing`, unless some spelling already is.
pub open spec fn spec_imply(variants: Seq<Seq<Type>>, required: Category, missing: Category) -> Seq<
    Seq<Type>,
> {
    if has_category(variants, missing) {
        variants
    } else {
        variants.map_values(|t: Seq<Type>| t + retagged(t, required, missing))
    }
}

/// The types of each variant.
pub open spec fn variant_types(variants: Seq<Variant>) -> Seq<Seq<Type>> {
    variants.map_values(|v: Variant| v.types@)
}

/// The words of each variant.
pub open spec fn variant_words(variants: Seq<Variant>) -> Seq<Seq<char>> {
    variants.map_values(|v: Variant| v.word@)
}

/// The inferences that `Entry::infer` makes, in order.
pub open spec fn spec_infer(variants: Seq<Seq<Type>>) -> Seq<Seq<Type>> {
    let a = spec_imply(variants, Category::BritishIse, Category::BritishIze);
    let b = spec_imply(a, Category::BritishIze, Category::Canadian);
    spec_imply(b, Category::BritishIse, Category::Australian)
}

fn retag(types: &Vec<Type>, required: Category, missing: Category) -> (r: Vec<Type>)
    ensures
        r@ == retagged(types@, required, missing),
{
    let mut r: Vec<Type> = Vec::new();
    let mut i = types.len();
    let ghost all = types@;
    while i > 0
        invariant
            i <= all.len(),
            all == types@,
            retagged(all.skip(i as int), required, missing) == r@,
        decreases i,
    {
        i = i - 1;
        let t = types[i];
        assert(all.skip(i as int).drop_first() =~= all.skip(i + 1));
        assert(all.skip(i as int)[0] == t);
        if t.category == required {
            let mut next: Vec<Type> = Vec::new();
            next.push(Type { category: missing, tag: t.tag, num: t.num });
            next.append(&mut r);
            r = next;
        }
    }
    assert(all.skip(0) =~= all);
    r
}

fn has_category_exec(variants: &Vec<Variant>, c: Category) -> (r: bool)
    ensures
        r == has_category(variant_types(variants@), c),
{
    let ghost vt = variant_types(variants@);
    let mut i: usize = 0;
    while i < variants.len()
        invariant
            i <= variants@.len(),
            vt == variant_types(variants@),
            forall|a: int, b: int|
                0 <= a < i && 0 <= b < vt[a].len() ==> (#[trigger] vt[a][b]).category != c,
        decreases variants@.len() - i,
    {
        let types = &variants[i].types;
        assert(vt[i as int] == types@);
        let mut j: usize = 0;
        while j < types.len()
            invariant
                i < variants@.len(),
                vt == variant_types(variants@),
                vt[i as int] == types@,
                j <= types@.len(),
                forall|b: int| 0 <= b < j ==> (#[trigger] vt[i as int][b]).category != c,
            decreases types@.len() - j,
        {
            if types[j].category == c {
                assert(vt[i as int][j as int].category == c);
                return true;
            }
            j = j + 1;
        }
        i = i + 1;
    }
    false
}

fn imply(variants: &mut Vec<Variant>, required: Category, missing: Category)
    ensures
        variant_types(final(variants)@) == spec_imply(variant_types(old(variants)@), required, missing),
        variant_words(final(variants)@) == variant_words(old(variants)@),
{
    if has_category_exec(variants, missing) {
        return;
    }
    let ghost vt = variant_types(variants@);
    let mut updated: Vec<Variant> = Vec::new();
    let mut i: usize = 0;
    while i < variants.len()
        invariant
            i <= variants@.len(),
            vt == variant_types(variants@),
            variant_types(updated@) =~= vt.take(i as int).map_values(
                |t: Seq<Type>| t + retagged(t, required, missing),
            ),
            variant_words(updated@) =~= variant_words(variants@).take(i as int),
        decreases variants@.len() - i,
    {
        let v = &variants[i];
        let mut types: Vec<Type> = Vec::new();
        let mut j: usize = 0;
        while j < v.types.len()
            invariant
                j <= v.types@.len(),
                types@ =~= v.types@.take(j as int),
            decreases v.types@.len() - j,
        {
            types.push(v.types[j]);
            j = j + 1;
        }
        assert(types@ =~= v.types@);
        let mut extra = retag(&v.types, required, missing);
        types.append(&mut extra);
        assert(vt[i as int] == v.types@);
        assert(types@ =~= vt[i as int] + retagged(vt[i as int], required, missing));
        assert(vt.take(i + 1).map_values(|t: Seq<Type>| t + retagged(t, required, missing))
            =~= vt.take(i as int).map_values(|t: Seq<Type>| t + retagged(t, required, missing))
            + seq![vt[i as int] + retagged(vt[i as int], required, missing)]);
        let ghost tb = variant_types(updated@);
        let ghost wb = variant_words(updated@);
        let nv = Variant { types, word: v.word.clone() };
        updated.push(nv);
        assert(variant_types(updated@) =~= tb + seq![nv.types@]);
        assert(variant_words(updated@) =~= wb + seq![nv.word@]);
        assert(vt.take(i + 1) =~= vt.take(i as int) + seq![vt[i as int]]);
        assert(variant_words(variants@).take(i + 1) =~= variant_words(variants@).take(i as int)
            + seq![v.word@]);
        i = i + 1;
    }
    assert(vt.take(i as int) =~= vt);
    assert(variant_words(variants@).take(i as int) =~= variant_words(variants@));
    *variants = updated;
}

impl Entry {
    /// Fill in the locales implied by others: `-ise` British spellings are also `-ize`
    /// British ones, `-ize` British spellings are Canadian, `-ise` British are Australian,
    /// each only when no spelling is in the implied locale yet.
    pub fn infer(&mut self)
        ensures
            variant_types(final(self).variants@) == spec_infer(variant_types(old(self).variants@)),
            variant_words(final(self).variants@) == variant_words(old(self).variants@),
            final(self).pos == old(self).pos,
            final(self).archaic == old(self).archaic,
            final(self).note == old(self).note,
            final(self).description == old(self).description,
            final(self).comment == old(self).comment,
            entry_inferred(*old(self), *final(self)),
    {
        imply(&mut self.variants, Category::BritishIse, Category::BritishIze);
        imply(&mut self.variants, Category::BritishIze, Category::Canadian);
        imply(&mut self.variants, Category::BritishIse, Category::Australian);
    }
}

/// Two entries differ at most in the types of their variants.
pub open spec fn same_but_types(a: Entry, b: Entry) -> bool {
    &&& variant_words(a.variants@) == variant_words(b.variants@)
    &&& a.pos == b.pos
    &&& a.archaic == b.archaic
    &&& a.note == b.note
    &&& a.description == b.description
    &&& a.comment == b.comment
}

/// `new` is what inferring `old` gives: the inferred types, everything else kept.
pub open spec fn entry_inferred(old: Entry, new: Entry) -> bool {
    &&& variant_types(new.variants@) == spec_infer(variant_types(old.variants@))
    &&& same_but_types(new, old)
}

/// Two entries with the same content: the same variants (types and words) and the same
/// other fields.
pub open spec fn same_content(a: Entry, b: Entry) -> bool {
    &&& variant_types(a.variants@) == variant_types(b.variants@)
    &&& same_but_types(a, b)
}

/// Inferring a cluster infers each entry as inferring that entry alone would: an entry of
/// the inferred cluster and the same old entry inferred by itself have the same content.
pub proof fn lemma_cluster_infer_is_entry_infer(old: Entry, in_cluster: Entry, alone: Entry)
    requires
        entry_inferred(old, in_cluster),
        entry_inferred(old, alone),
    ensures
        same_content(in_cluster, alone),
{
}

impl Cluster {
    /// Infer the implied locales of every entry.
    pub fn infer(&mut self)
        ensures
            final(self).entries@.len() == old(self).entries@.len(),
            forall|i: int|
                0 <= i < final(self).entries@.len() ==> variant_types(
                    (#[trigger] final(self).entries@[i]).variants@,
                ) == spec_infer(variant_types(old(self).entries@[i].variants@)),
            forall|i: int|
                0 <= i < final(self).entries@.len() ==> same_but_types(#[trigger] final(self).entries@[i], old(self).entries@[i]),
            forall|i: int|
                0 <= i < final(self).entries@.len() ==> entry_inferred(old(self).entries@[i], #[trigger] final(self).entries@[i]),
            final(self).header == old(self).header,
            final(self).verified == old(self).verified,
            final(self).level == old(self).level,
            final(self).notes == old(self).notes,
    {
        let mut entries: Vec<Entry> = Vec::new();
        std::mem::swap(&mut entries, &mut self.entries);
        let ghost orig = entries@;
        let mut done: Vec<Entry> = Vec::new();
        while entries.len() > 0
            invariant
                done@.len() + entries@.len() == orig.len(),
                entries@ == orig.skip(done@.len() as int),
                forall|i: int|
                    0 <= i < done@.len() ==> variant_types((#[trigger] done@[i]).variants@)
                        == spec_infer(variant_types(orig[i].variants@)),
                forall|i: int| 0 <= i < done@.len() ==> same_but_types(#[trigger] done@[i], orig[i]),
            decreases entries@.len(),
        {
            let mut entry = entries.remove(0);
            entry.infer();
            let ghost k = done@.len();
            done.push(entry);
            assert(entries@ =~= orig.skip(done@.len() as int));
        }
        self.entries = done;
    }
}

/// Inferring twice infers nothing more.
pub proof fn lemma_imply_idempotent(variants: Seq<Seq<Type>>, required: Category, missing: Category)
    requires
        required != missing,
    ensures
        spec_imply(spec_imply(variants, required, missing), required, missing) == spec_imply(
            variants,
            required,
            missing,
        ),
{
    let once = spec_imply(variants, required, missing);
    if !has_category(variants, missing) {
        if has_category(once, missing) {
        } else {
            assert forall|i: int| 0 <= i < variants.len() implies retagged(
                #[trigger] variants[i],
                required,
                missing,
            ) == Seq::<Type>::empty() by {
                lemma_retagged_empty_or_witness(variants[i], required, missing);
                if retagged(variants[i], required, missing).len() > 0 {
                    let t = retagged(variants[i], required, missing)[0];
                    assert(once[i] == variants[i] + retagged(variants[i], required, missing));
                    assert(once[i][variants[i].len() as int] == t);
                    assert(false);
                }
            }
            assert forall|i: int| 0 <= i < once.len() implies #[trigger] once[i] + retagged(
                once[i],
                required,
                missing,
            ) == once[i] by {
                assert(once[i] =~= variants[i] + Seq::<Type>::empty());
                assert(once[i] =~= variants[i]);
            }
            assert(spec_imply(once, required, missing) =~= once);
        }
    }
}

proof fn lemma_retagged_empty_or_witness(types: Seq<Type>, required: Category, missing: Category)
    ensures
        retagged(types, required, missing).len() > 0 ==> retagged(types, required, missing)[0].category
            == missing,
    decreases types.len(),
{
    if types.len() > 0 {
        lemma_retagged_empty_or_witness(types.drop_first(), required, missing);
    }
}

/// What `retagged` gives: types of category `missing`, some exactly when a type of
/// category `required` is there.
proof fn lemma_retagged_categories(types: Seq<Type>, required: Category, missing: Category)
    ensures
        forall|k: int|
            0 <= k < retagged(types, required, missing).len() ==> (#[trigger] retagged(
                types,
                required,
                missing,
            )[k]).category == missing,
        retagged(types, required, missing).len() > 0 <==> exists|j: int|
            0 <= j < types.len() && (#[trigger] types[j]).category == required,
    decreases types.len(),
{
    if types.len() > 0 {
        let rest = types.drop_first();
        lemma_retagged_categories(rest, required, missing);
        let head: Seq<Type> = if types[0].category == required {
            seq![Type { category: missing, ..types[0] }]
        } else {
            seq![]
        };
        assert(retagged(types, required, missing) == head + retagged(rest, required, missing));
        assert forall|k: int| 0 <= k < retagged(types, required, missing).len() implies (#[trigger] retagged(
            types,
            required,
            missing,
        )[k]).category == missing by {
            if k >= head.len() {
                assert(retagged(types, required, missing)[k] == retagged(rest, required, missing)[k
                    - head.len()]);
            }
        }
        if exists|j: int| 0 <= j < rest.len() && (#[trigger] rest[j]).category == required {
            let j = choose|j: int| 0 <= j < rest.len() && (#[trigger] rest[j]).category == required;
            assert(types[j + 1] == rest[j]);
        }
        if exists|j: int| 0 <= j < types.len() && (#[trigger] types[j]).category == required {
            let j = choose|j: int| 0 <= j < types.len() && (#[trigger] types[j]).category == required;
            if j > 0 {
                assert(rest[j - 1] == types[j]);
            }
        }
    }
}

/// Inferring `missing` from `required` adds `missing` where `required` is found and
/// `missing` is not; every other category is found exactly where it was.
proof fn lemma_imply_categories(variants: Seq<Seq<Type>>, required: Category, missing: Category, c: Category)
    ensures
        has_category(spec_imply(variants, required, missing), c) == (has_category(variants, c) || (c
            == missing && has_category(variants, required))),
{
    let once = spec_imply(variants, required, missing);
    if !has_category(variants, missing) {
        assert forall|i: int| 0 <= i < variants.len() implies #[trigger] once[i] == variants[i]
            + retagged(variants[i], required, missing) by {}
        if has_category(variants, c) {
            let (i, j) = choose|i: int, j: int|
                0 <= i < variants.len() && 0 <= j < variants[i].len() && (#[trigger] variants[i][j]).category
                    == c;
            assert(once[i][j] == variants[i][j]);
        }
        if c == missing && has_category(variants, required) {
            let (i, j) = choose|i: int, j: int|
                0 <= i < variants.len() && 0 <= j < variants[i].len() && (#[trigger] variants[i][j]).category
                    == required;
            lemma_retagged_categories(variants[i], required, missing);
            assert(variants[i][j].category == required);
            let n = variants[i].len() as int;
            assert(once[i][n] == retagged(variants[i], required, missing)[0]);
            assert(once[i][n].category == missing);
        }
        if has_category(once, c) {
            let (i, j) = choose|i: int, j: int|
                0 <= i < once.len() && 0 <= j < once[i].len() && (#[trigger] once[i][j]).category == c;
            lemma_retagged_categories(variants[i], required, missing);
            if j < variants[i].len() {
                assert(once[i][j] == variants[i][j]);
            } else {
                let n = variants[i].len() as int;
                assert(once[i][j] == retagged(variants[i], required, missing)[j - n]);
                let w = choose|w: int|
                    0 <= w < variants[i].len() && (#[trigger] variants[i][w]).category == required;
                assert(variants[i][w].category == required);
            }
        }
    }
}

/// Without `required` anywhere, inferring `missing` from it changes nothing.
proof fn lemma_imply_without_required(variants: Seq<Seq<Type>>, required: Category, missing: Category)
    requires
        !has_category(variants, required),
    ensures
        spec_imply(variants, required, missing) == variants,
{
    if !has_category(variants, missing) {
        let once = spec_imply(variants, required, missing);
        assert forall|i: int| 0 <= i < variants.len() implies #[trigger] once[i] == variants[i] by {
            lemma_retagged_categories(variants[i], required, missing);
            if retagged(variants[i], required, missing).len() > 0 {
                let w = choose|w: int|
                    0 <= w < variants[i].len() && (#[trigger] variants[i][w]).category == required;
                assert(variants[i][w].category == required);
            }
            assert(once[i] =~= variants[i] + Seq::<Type>::empty());
        }
        assert(once =~= variants);
    }
}

/// Inferring again after `Entry::infer` infers nothing more: the inferred variants are a
/// fixed point of the inference.
pub proof fn lemma_infer_idempotent(variants: Seq<Seq<Type>>)
    ensures
        spec_infer(spec_infer(variants)) == spec_infer(variants),
{
    let a = spec_imply(variants, Category::BritishIse, Category::BritishIze);
    let b = spec_imply(a, Category::BritishIze, Category::Canadian);
    let c = spec_imply(b, Category::BritishIse, Category::Australian);
    assert(c == spec_infer(variants));
    lemma_imply_categories(variants, Category::BritishIse, Category::BritishIze, Category::BritishIse);
    lemma_imply_categories(variants, Category::BritishIse, Category::BritishIze, Category::BritishIze);
    lemma_imply_categories(variants, Category::BritishIse, Category::BritishIze, Category::Canadian);
    lemma_imply_categories(variants, Category::BritishIse, Category::BritishIze, Category::Australian);
    lemma_imply_categories(a, Category::BritishIze, Category::Canadian, Category::BritishIse);
    lemma_imply_categories(a, Category::BritishIze, Category::Canadian, Category::BritishIze);
    lemma_imply_categories(a, Category::BritishIze, Category::Canadian, Category::Canadian);
    lemma_imply_categories(a, Category::BritishIze, Category::Canadian, Category::Australian);
    lemma_imply_categories(b, Category::BritishIse, Category::Australian, Category::BritishIse);
    lemma_imply_categories(b, Category::BritishIse, Category::Australian, Category::BritishIze);
    lemma_imply_categories(b, Category::BritishIse, Category::Australian, Category::Canadian);
    lemma_imply_categories(b, Category::BritishIse, Category::Australian, Category::Australian);
    // First step again: `c` has -ize spellings, or has no -ise spellings to infer them from.
    if !has_category(c, Category::BritishIze) {
        lemma_imply_without_required(c, Category::BritishIse, Category::BritishIze);
    }
    let a2 = spec_imply(c, Category::BritishIse, Category::BritishIze);
    assert(a2 == c);
    if !has_category(c, Category::Canadian) {
        lemma_imply_without_required(c, Category::BritishIze, Category::Canadian);
    }
    let b2 = spec_imply(a2, Category::BritishIze, Category::Canadian);
    assert(b2 == c);
    if !has_category(c, Category::Australian) {
        lemma_imply_without_required(c, Category::BritishIse, Category::Australian);
    }
    assert(spec_imply(b2, Category::BritishIse, Category::Australian) == c);
}

/// Each type that `retagged` gives is a type of category `required` moved to `missing`.
proof fn lemma_retagged_sources(types: Seq<Type>, required: Category, missing: Category)
    ensures
        forall|k: int|
            0 <= k < retagged(types, required, missing).len() ==> exists|j: int|
                0 <= j < types.len() && types[j].category == required && #[trigger] retagged(
                    types,
                    required,
                    missing,
                )[k] == (Type { category: missing, ..types[j] }),
    decreases types.len(),
{
    if types.len() > 0 {
        let rest = types.drop_first();
        lemma_retagged_sources(rest, required, missing);
        let head: Seq<Type> = if types[0].category == required {
            seq![Type { category: missing, ..types[0] }]
        } else {
            seq![]
        };
        let all = retagged(types, required, missing);
        assert(all == head + retagged(rest, required, missing));
        assert forall|k: int| 0 <= k < all.len() implies exists|j: int|
            0 <= j < types.len() && types[j].category == required && #[trigger] all[k] == (Type {
                category: missing,
                ..types[j]
            }) by {
            if k < head.len() {
                assert(all[k] == (Type { category: missing, ..types[0] }));
            } else {
                let t = retagged(rest, required, missing)[k - head.len()];
                assert(all[k] == t);
                let j = choose|j: int|
                    0 <= j < rest.len() && rest[j].category == required && t == (Type {
                        category: missing,
                        ..rest[j]
                    });
                assert(types[j + 1] == rest[j]);
            }
        }
    }
}

/// An added type `t` is a copy of `o` (same tag and number) in a locale that `o`'s locale
/// implies: British `-ise` gives British `-ize`, Canadian and Australian; British `-ize`
/// gives Canadian.
pub open spec fn implied_copy(t: Type, o: Type) -> bool {
    &&& t.tag == o.tag
    &&& t.num == o.num
    &&& {
        ||| t.category == Category::BritishIze && o.category == Category::BritishIse
        ||| t.category == Category::Canadian && (o.category == Category::BritishIze || o.category
            == Category::BritishIse)
        ||| t.category == Category::Australian && o.category == Category::BritishIse
    }
}

/// `new` keeps the variants of `old`, each variant's types as a prefix, and every type
/// after that prefix is an implied copy of one of the variant's old types.
pub open spec fn extends_with_copies(old: Seq<Seq<Type>>, new: Seq<Seq<Type>>) -> bool {
    &&& new.len() == old.len()
    &&& forall|i: int|
        0 <= i < old.len() ==> old[i].len() <= new[i].len() && (#[trigger] new[i]).subrange(0, old[i].len() as int)
            == old[i]
    &&& forall|i: int, k: int|
        0 <= i < old.len() && old[i].len() <= k < new[i].len() ==> copies_one_of(#[trigger] new[i][k], old[i])
}

/// `t` is an implied copy of one of the types `olds`.
pub open spec fn copies_one_of(t: Type, olds: Seq<Type>) -> bool {
    exists|j: int| 0 <= j < olds.len() && implied_copy(t, #[trigger] olds[j])
}

proof fn lemma_imply_step(
    v: Seq<Seq<Type>>,
    x: Seq<Seq<Type>>,
    required: Category,
    missing: Category,
)
    requires
        extends_with_copies(v, x),
        (required == Category::BritishIse && missing == Category::BritishIze) || (required
            == Category::BritishIze && missing == Category::Canadian) || (required == Category::BritishIse
            && missing == Category::Australian),
        required == Category::BritishIze ==> forall|i: int, k: int|
            0 <= i < v.len() && v[i].len() <= k < x[i].len() && (#[trigger] x[i][k]).category
                == Category::BritishIze ==> exists|j: int|
                0 <= j < v[i].len() && x[i][k].tag == v[i][j].tag && x[i][k].num == v[i][j].num
                    && v[i][j].category == Category::BritishIse,
    ensures
        extends_with_copies(v, spec_imply(x, required, missing)),
{
    let y = spec_imply(x, required, missing);
    if !has_category(x, missing) {
        assert(y.len() == x.len());
        assert forall|i: int| 0 <= i < v.len() implies v[i].len() <= y[i].len() && (#[trigger] y[i]).subrange(
            0,
            v[i].len() as int,
        ) == v[i] by {
            assert(y[i] == x[i] + retagged(x[i], required, missing));
            assert(x[i].subrange(0, v[i].len() as int) == v[i]);
            assert(y[i].subrange(0, v[i].len() as int) =~= x[i].subrange(0, v[i].len() as int));
        }
        assert forall|i: int, k: int|
            0 <= i < v.len() && v[i].len() <= k < y[i].len() implies copies_one_of(#[trigger] y[i][k], v[i]) by {
            assert(y[i] == x[i] + retagged(x[i], required, missing));
            if k < x[i].len() {
                assert(y[i][k] == x[i][k]);
                assert(copies_one_of(x[i][k], v[i]));
            } else {
                lemma_retagged_sources(x[i], required, missing);
                let t = retagged(x[i], required, missing)[k - x[i].len()];
                assert(y[i][k] == t);
                let m = choose|m: int|
                    0 <= m < x[i].len() && x[i][m].category == required && t == (Type {
                        category: missing,
                        ..x[i][m]
                    });
                if m < v[i].len() {
                    assert(x[i].subrange(0, v[i].len() as int)[m] == x[i][m]);
                    assert(v[i][m] == x[i][m]);
                    assert(implied_copy(y[i][k], v[i][m]));
                } else {
                    if required == Category::BritishIze {
                        let j = choose|j: int|
                            0 <= j < v[i].len() && x[i][m].tag == v[i][j].tag && x[i][m].num
                                == v[i][j].num && v[i][j].category == Category::BritishIse;
                        assert(implied_copy(y[i][k], v[i][j]));
                    } else {
                        assert(copies_one_of(x[i][m], v[i]));
                        let j = choose|j: int| 0 <= j < v[i].len() && implied_copy(x[i][m], #[trigger] v[i][j]);
                        assert(implied_copy(x[i][m], v[i][j]));
                        assert(false);
                    }
                }
            }
        }
        assert(extends_with_copies(v, y));
    } else {
        assert(y == x);
    }
}

/// `Entry::infer` keeps every variant and its types, and adds only implied copies: the old
/// types are a prefix of the new, and each added type copies (same tag and number) an old
/// one of an implying locale.
pub proof fn lemma_infer_extends(v: Seq<Seq<Type>>)
    ensures
        extends_with_copies(v, spec_infer(v)),
{
    assert forall|i: int| 0 <= i < v.len() implies v[i].len() <= v[i].len() && (#[trigger] v[i]).subrange(
        0,
        v[i].len() as int,
    ) == v[i] by {
        assert(v[i].subrange(0, v[i].len() as int) =~= v[i]);
    }
    assert(extends_with_copies(v, v));
    lemma_imply_step(v, v, Category::BritishIse, Category::BritishIze);
    let a = spec_imply(v, Category::BritishIse, Category::BritishIze);
    assert forall|i: int, k: int|
        0 <= i < v.len() && v[i].len() <= k < a[i].len() && (#[trigger] a[i][k]).category
            == Category::BritishIze implies exists|j: int|
        0 <= j < v[i].len() && a[i][k].tag == v[i][j].tag && a[i][k].num == v[i][j].num
            && v[i][j].category == Category::BritishIse by {
        assert(copies_one_of(a[i][k], v[i]));
        let j = choose|j: int| 0 <= j < v[i].len() && implied_copy(a[i][k], #[trigger] v[i][j]);
        assert(implied_copy(a[i][k], v[i][j]));
    }
    lemma_imply_step(v, a, Category::BritishIze, Category::Canadian);
    let b = spec_imply(a, Category::BritishIze, Category::Canadian);
    lemma_imply_step(v, b, Category::BritishIse, Category::Australian);
}

} // verus!
