//! Fields: the members that a class has from its layout, and the entries of
//! its `construct` payload.

use vstd::prelude::*;

use crate::converter::Converter;
use crate::ident::{field_key, field_key_text};
use crate::lad::{LadFile, LadNamedField, LadVariant};
use crate::naming::{lemma_positions_where, positions_where, TypeNames};
use crate::order::{at_positions};
use crate::text::{
    chained, concat, contains_text, distinct, distinct_texts, join, joined, lemma_chained_contains,
    lemma_concat_take, lemma_distinct_contains, lemma_distinct_no_duplicates, lemma_take_push,
    lemma_texts_add, lemma_texts_push, push_distinct, same_text, texts,
};
use crate::types::{alternatives_of, kind_text};

verus! {

/// The Luau keys of the given fields.
pub open spec fn field_keys(fields: Seq<LadNamedField>) -> Seq<Seq<char>> {
    Seq::new(fields.len(), |i: int| field_key_text(fields[i].name@))
}

/// The types of the given fields.
pub open spec fn field_types(lad: LadFile, n: TypeNames, fields: Seq<LadNamedField>) -> Seq<
    Seq<char>,
> {
    Seq::new(fields.len(), |i: int| kind_text(lad, n, fields[i].type_, false))
}

/// The positions of the fields whose key no earlier field has.
pub open spec fn first_of_key(fields: Seq<LadNamedField>) -> Seq<int> {
    positions_where(
        fields.len(),
        |i: int| !field_keys(fields).take(i).contains(field_keys(fields)[i]),
    )
}

/// The members of a plain struct. They are always present on a live reference,
/// so they are not optional.
pub open spec fn struct_members(lad: LadFile, n: TypeNames, fields: Seq<LadNamedField>) -> Seq<
    Seq<char>,
> {
    first_of_key(fields).map_values(
        |i: int|
            "\t"@ + field_keys(fields)[i] + ": "@ + field_types(lad, n, fields)[i] + "\n"@,
    )
}

/// The entries of a struct's payload. All of them are optional.
pub open spec fn payload_entries(lad: LadFile, n: TypeNames, fields: Seq<LadNamedField>) -> Seq<
    Seq<char>,
> {
    first_of_key(fields).map_values(
        |i: int|
            "\t"@ + field_keys(fields)[i] + ": "@ + field_types(lad, n, fields)[i] + "?,\n"@,
    )
}

/// The named fields of all variants, one after the other.
pub open spec fn variant_fields(variants: Seq<LadVariant>) -> Seq<LadNamedField>
    decreases variants.len(),
{
    if variants.len() == 0 {
        Seq::empty()
    } else {
        variant_fields(variants.drop_last()) + named_fields(variants.last())
    }
}

/// The named fields of a variant.
pub open spec fn named_fields(variant: LadVariant) -> Seq<LadNamedField> {
    match variant {
        LadVariant::Struct { name: _, fields } => fields@,
        _ => Seq::empty(),
    }
}

/// Whether the text at position `i` is the given key.
pub open spec fn is_key(keys: Seq<Seq<char>>, key: Seq<char>, i: int) -> bool {
    keys[i] == key
}

/// The positions of the given key.
pub open spec fn positions_of_key(keys: Seq<Seq<char>>, key: Seq<char>) -> Seq<int> {
    positions_where(keys.len(), |i: int| is_key(keys, key, i))
}

/// The types that fields with the given key have, each once.
pub open spec fn types_under_key(
    lad: LadFile,
    n: TypeNames,
    fields: Seq<LadNamedField>,
    key: Seq<char>,
) -> Seq<Seq<char>> {
    distinct(at_positions(field_types(lad, n, fields), positions_of_key(field_keys(fields), key)))
}

/// The alternatives that each of the given fields stands for.
pub open spec fn field_alternatives(lad: LadFile, n: TypeNames, fields: Seq<LadNamedField>) -> Seq<
    Seq<Seq<char>>,
> {
    Seq::new(fields.len(), |i: int| alternatives_of(lad, n, fields[i].type_, false))
}

/// The alternatives that fields with the given key stand for, each once.
pub open spec fn alternatives_under_key(
    lad: LadFile,
    n: TypeNames,
    fields: Seq<LadNamedField>,
    key: Seq<char>,
) -> Seq<Seq<char>> {
    distinct(
        chained(
            at_positions(
                field_alternatives(lad, n, fields),
                positions_of_key(field_keys(fields), key),
            ),
        ),
    )
}

/// The type of the fields with the given key: the one that they have, or the
/// union of their alternatives.
pub open spec fn merged_type(
    lad: LadFile,
    n: TypeNames,
    fields: Seq<LadNamedField>,
    key: Seq<char>,
) -> Seq<char> {
    let types = types_under_key(lad, n, fields, key);
    if types.len() == 1 {
        types[0]
    } else {
        "("@ + joined(alternatives_under_key(lad, n, fields, key), " | "@) + ")"@
    }
}

/// The members of an enum: the named fields of all its variants, merged by key.
/// A field may belong to an inactive variant, so all of them are optional;
/// fields of one key and different types union.
pub open spec fn enum_members(lad: LadFile, n: TypeNames, fields: Seq<LadNamedField>) -> Seq<
    Seq<char>,
> {
    distinct(field_keys(fields)).map_values(
        |key: Seq<char>|
            "\t"@ + key + ": "@ + merged_type(lad, n, fields, key) + "?\n"@,
    )
}

/// The declared name of a variant, whatever its kind.
pub open spec fn variant_name(variant: LadVariant) -> Seq<char> {
    match variant {
        LadVariant::TupleStruct { name } => name@,
        LadVariant::Struct { name, fields: _ } => name@,
        LadVariant::Unit { name } => name@,
    }
}

/// The names of an enum's variants, as Luau string types.
pub open spec fn quoted_variants(variants: Seq<LadVariant>) -> Seq<Seq<char>> {
    Seq::new(variants.len(), |i: int| "\""@ + variant_name(variants[i]) + "\""@)
}

/// Dropping fields with a key that is already taken leaves each key once, and
/// drops no key.
pub proof fn law_field_keys_unique(fields: Seq<LadNamedField>)
    ensures
        at_positions(field_keys(fields), first_of_key(fields)).no_duplicates(),
        forall|i: int|
            0 <= i < fields.len() ==> at_positions(
                field_keys(fields),
                first_of_key(fields),
            ).contains(#[trigger] field_keys(fields)[i]),
{
    let keys = field_keys(fields);
    let p = |i: int| !keys.take(i).contains(keys[i]);
    let kept = first_of_key(fields);
    let r = at_positions(keys, kept);
    lemma_positions_where(fields.len(), p);
    assert forall|a: int, b: int| 0 <= a < b < r.len() implies r[a] != r[b] by {
        assert(kept.contains(kept[a]) && kept.contains(kept[b]));
        assert(p(kept[a]) && p(kept[b]));
        if keys[kept[a]] == keys[kept[b]] {
            if kept[a] < kept[b] {
                assert(keys.take(kept[b])[kept[a]] == keys[kept[b]]);
            } else {
                assert(keys.take(kept[a])[kept[b]] == keys[kept[a]]);
            }
        }
    }
    assert forall|i: int| 0 <= i < fields.len() implies r.contains(#[trigger] keys[i]) by {
        lemma_first_of_key(keys, i);
        let f = choose|f: int|
            0 <= f <= i && #[trigger] keys[f] == keys[i] && !keys.take(f).contains(keys[f]);
        assert(p(f));
        assert(kept.contains(f));
        let k = choose|k: int| 0 <= k < kept.len() && kept[k] == f;
        assert(r[k] == keys[i]);
    }
}

/// The key at position `i` has a first position.
proof fn lemma_first_of_key(keys: Seq<Seq<char>>, i: int)
    requires
        0 <= i < keys.len(),
    ensures
        exists|f: int|
            0 <= f <= i && #[trigger] keys[f] == keys[i] && !keys.take(f).contains(keys[f]),
    decreases i,
{
    if keys.take(i).contains(keys[i]) {
        let g = choose|g: int| 0 <= g < keys.take(i).len() && keys.take(i)[g] == keys[i];
        assert(keys[g] == keys[i]);
        lemma_first_of_key(keys, g);
    }
}

/// Merging the fields of an enum gives each key once, loses none, and lists
/// each alternative of a key once and all of them.
pub proof fn law_merged_fields(lad: LadFile, n: TypeNames, fields: Seq<LadNamedField>, i: int)
    requires
        0 <= i < fields.len(),
    ensures
        distinct(field_keys(fields)).no_duplicates(),
        distinct(field_keys(fields)).contains(field_keys(fields)[i]),
        types_under_key(lad, n, fields, field_keys(fields)[i]).contains(
            field_types(lad, n, fields)[i],
        ),
        alternatives_under_key(lad, n, fields, field_keys(fields)[i]).no_duplicates(),
        forall|text: Seq<char>| #[trigger]
            alternatives_of(lad, n, fields[i].type_, false).contains(text)
                ==> alternatives_under_key(lad, n, fields, field_keys(fields)[i]).contains(text),
{
    let keys = field_keys(fields);
    let key = keys[i];
    let types = field_types(lad, n, fields);
    let lists = field_alternatives(lad, n, fields);
    let positions = positions_of_key(keys, key);
    let under = at_positions(types, positions);
    let lists_under = at_positions(lists, positions);
    lemma_distinct_no_duplicates(keys);
    lemma_distinct_contains(keys, key);
    assert(keys.contains(keys[i]));
    lemma_positions_where(keys.len(), |j: int| is_key(keys, key, j));
    assert(positions.contains(i));
    let k = choose|k: int| 0 <= k < positions.len() && positions[k] == i;
    assert(under[k] == types[i]);
    assert(under.contains(types[i]));
    lemma_distinct_contains(under, types[i]);
    lemma_distinct_no_duplicates(chained(lists_under));
    assert(lists_under[k] == lists[i]);
    assert forall|text: Seq<char>| #[trigger] lists[i].contains(text) implies distinct(
        chained(lists_under),
    ).contains(text) by {
        lemma_chained_contains(lists_under, text);
        assert(lists_under[k].contains(text));
        lemma_distinct_contains(chained(lists_under), text);
    }
}

/// The declared name of a LAD variant, whatever its kind.
pub fn lad_variant_name(variant: &LadVariant) -> (r: &str)
    ensures
        r@ == variant_name(*variant),
{
    match variant {
        LadVariant::TupleStruct { name } => name.as_str(),
        LadVariant::Struct { name, .. } => name.as_str(),
        LadVariant::Unit { name } => name.as_str(),
    }
}

/// Pair up the Luau keys of fields with the fields' positions, dropping any
/// whose key collides with an earlier one.
///
/// Class names are made unique by suffixing, but a field cannot be: the key is
/// what reflect indexing actually uses at runtime, so a renamed field would be
/// backed by nothing. Rust identifiers survive
/// [`sanitize`](crate::ident::sanitize) unchanged, so this only bites types
/// registered from outside Rust; dropping the later field and saying so (see
/// [`skipped_fields`](crate::warnings::skipped_fields)) is the honest outcome.
pub fn dedupe_field_keys(fields: &Vec<LadNamedField>) -> (r: Vec<(String, usize)>)
    ensures
        r@.map_values(|f: (String, usize)| f.1 as int) == first_of_key(fields@),
        forall|k: int|
            0 <= k < r@.len() ==> (#[trigger] r@[k]).1 < fields@.len() && r@[k].0@ == field_keys(
                fields@,
            )[r@[k].1 as int],
{
    let ghost keys = field_keys(fields@);
    let ghost p = |i: int| !keys.take(i).contains(keys[i]);
    let mut seen: Vec<String> = Vec::new();
    let mut out: Vec<(String, usize)> = Vec::new();
    let mut i: usize = 0;
    assert(texts(seen@) =~= keys.take(0));
    assert(out@.map_values(|f: (String, usize)| f.1 as int)
        =~= positions_where(0, p));
    while i < fields.len()
        invariant
            i <= fields@.len(),
            keys == field_keys(fields@),
            p == (|i: int| !keys.take(i).contains(keys[i])),
            texts(seen@) == keys.take(i as int),
            out@.map_values(|f: (String, usize)| f.1 as int) == positions_where(i as nat, p),
            forall|k: int|
                0 <= k < out@.len() ==> (#[trigger] out@[k]).1 < fields@.len() && out@[k].0@
                    == keys[out@[k].1 as int],
        decreases fields@.len() - i,
    {
        let key = field_key(fields[i].name.as_str());
        let taken = contains_text(&seen, key.as_str());
        proof {
            lemma_texts_push(seen@, key);
            lemma_take_push(keys, i as int);
        }
        seen.push(key.clone());
        if !taken {
            assert(out@.push((key, i)).map_values(|f: (String, usize)| f.1 as int)
                =~= out@.map_values(|f: (String, usize)| f.1 as int).push(i as int));
            out.push((key, i));
        }
        i += 1;
    }
    out
}

/// The names of an enum's variants, one of which a value of it has.
pub fn variant_union(variants: &Vec<LadVariant>) -> (r: String)
    ensures
        r@ == joined(quoted_variants(variants@), " | "@),
{
    let ghost all = quoted_variants(variants@);
    let mut parts: Vec<String> = Vec::new();
    let mut i: usize = 0;
    assert(texts(parts@) =~= all.take(0));
    while i < variants.len()
        invariant
            i <= variants@.len(),
            all == quoted_variants(variants@),
            texts(parts@) == all.take(i as int),
        decreases variants@.len() - i,
    {
        let mut part = "\"".to_owned();
        part.append(lad_variant_name(&variants[i]));
        part.append("\"");
        proof {
            lemma_texts_push(parts@, part);
            lemma_take_push(all, i as int);
        }
        parts.push(part);
        i += 1;
    }
    assert(all.take(i as int) =~= all);
    join(&parts, " | ")
}

impl<'a> Converter<'a> {
    /// The fields of a plain struct, each in a line with the given end.
    fn field_lines(&self, fields: &Vec<LadNamedField>, end: &str) -> (r: String)
        requires
            self.wf(),
        ensures
            r@ == concat(
                first_of_key(fields@).map_values(
                    |i: int|
                        "\t"@ + field_keys(fields@)[i] + ": "@ + field_types(
                            *self.lad,
                            self@.types,
                            fields@,
                        )[i] + end@,
                ),
            ),
    {
        let kept = dedupe_field_keys(fields);
        let ghost all = first_of_key(fields@).map_values(
            |i: int|
                "\t"@ + field_keys(fields@)[i] + ": "@ + field_types(*self.lad, self@.types, fields@)[i]
                    + end@,
        );
        let mut out = String::new();
        let mut k: usize = 0;
        assert(concat(all.take(0)) =~= Seq::<char>::empty());
        assert(all.len() == kept@.map_values(|f: (String, usize)| f.1 as int).len());
        while k < kept.len()
            invariant
                k <= kept@.len(),
                self.wf(),
                kept@.len() == all.len(),
                forall|k: int|
                    0 <= k < kept@.len() ==> (#[trigger] kept@[k]).1 < fields@.len()
                        && kept@[k].0@ == field_keys(fields@)[kept@[k].1 as int],
                kept@.map_values(|f: (String, usize)| f.1 as int) == first_of_key(fields@),
                all == first_of_key(fields@).map_values(
                    |i: int|
                        "\t"@ + field_keys(fields@)[i] + ": "@ + field_types(
                            *self.lad,
                            self@.types,
                            fields@,
                        )[i] + end@,
                ),
                out@ == concat(all.take(k as int)),
            decreases kept@.len() - k,
        {
            let mut line = "\t".to_owned();
            line.append(kept[k].0.as_str());
            line.append(": ");
            line.append(self.kind(&fields[kept[k].1].type_).as_str());
            line.append(end);
            proof {
                lemma_concat_take(all, k as int);
                assert(first_of_key(fields@)[k as int] == kept@.map_values(
                    |f: (String, usize)| f.1 as int,
                )[k as int]);
            }
            out.append(line.as_str());
            k += 1;
        }
        assert(all.take(k as int) =~= all);
        out
    }

    /// The members of a plain struct.
    pub fn struct_fields(&self, fields: &Vec<LadNamedField>) -> (r: String)
        requires
            self.wf(),
        ensures
            r@ == concat(struct_members(*self.lad, self@.types, fields@)),
    {
        self.field_lines(fields, "\n")
    }

    /// The entries of a struct's payload.
    pub fn payload_fields(&self, fields: &Vec<LadNamedField>) -> (r: String)
        requires
            self.wf(),
        ensures
            r@ == concat(payload_entries(*self.lad, self@.types, fields@)),
    {
        self.field_lines(fields, "?,\n")
    }

    /// The type of the fields with the given key.
    fn type_under(&self, fields: &Vec<&LadNamedField>, keys: &Vec<String>, key: &str) -> (r: String)
        requires
            self.wf(),
            texts(keys@) == field_keys(derefs(fields@)),
        ensures
            r@ == merged_type(*self.lad, self@.types, derefs(fields@), key@),
    {
        let ghost all = derefs(fields@);
        let ghost names = texts(keys@);
        let ghost p = |i: int| is_key(names, key@, i);
        let ghost whole = field_types(*self.lad, self@.types, all);
        let ghost lists = field_alternatives(*self.lad, self@.types, all);
        let mut types: Vec<String> = Vec::new();
        let mut found: Vec<String> = Vec::new();
        let mut i: usize = 0;
        assert(names.len() == all.len());
        assert(texts(types@) =~= distinct(at_positions(whole, positions_where(0, p))));
        assert(texts(found@) =~= chained(at_positions(lists, positions_where(0, p))));
        while i < keys.len()
            invariant
                i <= keys@.len(),
                self.wf(),
                all == derefs(fields@),
                names == texts(keys@),
                names == field_keys(all),
                names.len() == all.len(),
                p == (|i: int| is_key(names, key@, i)),
                whole == field_types(*self.lad, self@.types, all),
                lists == field_alternatives(*self.lad, self@.types, all),
                texts(types@) == distinct(at_positions(whole, positions_where(i as nat, p))),
                texts(found@) == chained(at_positions(lists, positions_where(i as nat, p))),
            decreases keys@.len() - i,
        {
            assert(names[i as int] == keys@[i as int]@);
            if same_text(keys[i].as_str(), key) {
                let mut more = self.alternatives(&fields[i].type_, false);
                proof {
                    let before = positions_where(i as nat, p);
                    let now = before.push(i as int);
                    assert(all[i as int] == *fields@[i as int]);
                    assert(at_positions(whole, now) =~= at_positions(whole, before).push(
                        whole[i as int],
                    ));
                    assert(at_positions(whole, now).drop_last() =~= at_positions(whole, before));
                    assert(at_positions(lists, now) =~= at_positions(lists, before).push(
                        lists[i as int],
                    ));
                    assert(at_positions(lists, now).drop_last() =~= at_positions(lists, before));
                    lemma_texts_add(found@, more@);
                }
                push_distinct(&mut types, self.kind(&fields[i].type_));
                found.append(&mut more);
            }
            i += 1;
        }
        assert(texts(types@).len() == types@.len());
        if types.len() == 1 {
            assert(texts(types@)[0] == types@[0]@);
            types[0].clone()
        } else {
            let mut out = "(".to_owned();
            out.append(join(&distinct_texts(&found), " | ").as_str());
            out.append(")");
            out
        }
    }

    /// The members of an enum.
    pub fn enum_fields(&self, variants: &Vec<LadVariant>) -> (r: String)
        requires
            self.wf(),
        ensures
            r@ == concat(enum_members(*self.lad, self@.types, variant_fields(variants@))),
    {
        let ghost all_fields = variant_fields(variants@);
        let fields = fields_of_variants(variants);
        let keys = keys_of(&fields);
        let merged = distinct_texts(&keys);
        let ghost all = enum_members(*self.lad, self@.types, all_fields);
        let mut out = String::new();
        let mut k: usize = 0;
        assert(concat(all.take(0)) =~= Seq::<char>::empty());
        assert(texts(merged@).len() == all.len());
        while k < merged.len()
            invariant
                k <= merged@.len(),
                merged@.len() == all.len(),
                self.wf(),
                derefs(fields@) == all_fields,
                texts(merged@) == distinct(field_keys(all_fields)),
                texts(keys@) == field_keys(all_fields),
                all == enum_members(*self.lad, self@.types, all_fields),
                out@ == concat(all.take(k as int)),
            decreases merged@.len() - k,
        {
            assert(texts(merged@)[k as int] == merged@[k as int]@);
            let mut line = "\t".to_owned();
            line.append(merged[k].as_str());
            line.append(": ");
            line.append(self.type_under(&fields, &keys, merged[k].as_str()).as_str());
            line.append("?\n");
            proof {
                lemma_concat_take(all, k as int);
            }
            out.append(line.as_str());
            k += 1;
        }
        assert(all.take(k as int) =~= all);
        out
    }
}

/// The fields that references point to.
pub open spec fn derefs(fields: Seq<&LadNamedField>) -> Seq<LadNamedField> {
    fields.map_values(|f: &LadNamedField| *f)
}

/// The named fields of all variants, one after the other.
pub fn fields_of_variants(variants: &Vec<LadVariant>) -> (r: Vec<&LadNamedField>)
    ensures
        derefs(r@) == variant_fields(variants@),
{
    let mut out: Vec<&LadNamedField> = Vec::new();
    let mut v: usize = 0;
    assert(derefs(out@) =~= variant_fields(variants@.take(0)));
    while v < variants.len()
        invariant
            v <= variants@.len(),
            derefs(out@) == variant_fields(variants@.take(v as int)),
        decreases variants@.len() - v,
    {
        let ghost start = variant_fields(variants@.take(v as int));
        proof {
            assert(variants@.take(v + 1).drop_last() =~= variants@.take(v as int));
            assert(variants@.take(v + 1).last() == variants@[v as int]);
        }
        match &variants[v] {
            LadVariant::Struct { fields, .. } => {
                let mut i: usize = 0;
                assert(start + fields@.take(0) =~= start);
                while i < fields.len()
                    invariant
                        i <= fields@.len(),
                        derefs(out@) == start + fields@.take(i as int),
                    decreases fields@.len() - i,
                {
                    assert(derefs(out@.push(&fields@[i as int])) =~= derefs(out@).push(
                        fields@[i as int],
                    ));
                    assert(start + fields@.take(i + 1) =~= (start + fields@.take(i as int)).push(
                        fields@[i as int],
                    ));
                    out.push(&fields[i]);
                    i += 1;
                }
                assert(fields@.take(i as int) =~= fields@);
            },
            _ => {
                assert(start + Seq::<LadNamedField>::empty() =~= start);
            },
        }
        v += 1;
    }
    assert(variants@.take(v as int) =~= variants@);
    out
}

/// The Luau keys of the given fields.
pub fn keys_of(fields: &Vec<&LadNamedField>) -> (r: Vec<String>)
    ensures
        texts(r@) == field_keys(derefs(fields@)),
{
    let ghost all = field_keys(derefs(fields@));
    let mut out: Vec<String> = Vec::new();
    let mut i: usize = 0;
    assert(texts(out@) =~= all.take(0));
    while i < fields.len()
        invariant
            i <= fields@.len(),
            all == field_keys(derefs(fields@)),
            texts(out@) == all.take(i as int),
        decreases fields@.len() - i,
    {
        let key = field_key(fields[i].name.as_str());
        proof {
            lemma_texts_push(out@, key);
            lemma_take_push(all, i as int);
            assert(derefs(fields@)[i as int] == *fields@[i as int]);
        }
        out.push(key);
        i += 1;
    }
    assert(all.take(i as int) =~= all);
    out
}

} // verus!
