//! Layout construction: resolves every type reachable from the requested
//! roots inside a schema container into one validated `Layout` per distinct
//! type name, in encounter order, or rejects the container with the exact
//! error the offending declaration deserves.

use vstd::prelude::*;
use vstd::string::*;

use crate::model::Field;
use crate::model::FieldV;
use crate::model::Layout;
use crate::model::LayoutKind;
use crate::model::LayoutV;
use crate::model::SchemaContainer;
use crate::model::SchemaError;
use crate::model::SchemaErrorV;
use crate::model::TypeD;
use crate::model::TypeDecl;
use crate::model::TypeDescriptor;
use crate::model::fields_view;
use crate::model::layouts_view;
use crate::model::names_view;

verus! {

/// The scalar tags with a fixed wire representation that the emitter knows
/// how to dispatch: the fixed-width integers, `bool`, `String`, and the
/// 32-byte `Pubkey` identifier.
pub open spec fn supported_primitive(s: Seq<char>) -> bool {
    ||| s == "u8"@
    ||| s == "u16"@
    ||| s == "u32"@
    ||| s == "u64"@
    ||| s == "u128"@
    ||| s == "i8"@
    ||| s == "i16"@
    ||| s == "i32"@
    ||| s == "i64"@
    ||| s == "i128"@
    ||| s == "bool"@
    ||| s == "String"@
    ||| s == "Pubkey"@
}

fn is_supported_primitive(p: &String) -> (b: bool)
    ensures
        b == supported_primitive(p@),
{
    *p == String::from_str("u8") || *p == String::from_str("u16") || *p == String::from_str(
        "u32",
    ) || *p == String::from_str("u64") || *p == String::from_str("u128") || *p
        == String::from_str("i8") || *p == String::from_str("i16") || *p == String::from_str(
        "i32",
    ) || *p == String::from_str("i64") || *p == String::from_str("i128") || *p
        == String::from_str("bool") || *p == String::from_str("String") || *p
        == String::from_str("Pubkey")
}

/// Validates one type descriptor: every scalar tag inside it must be a
/// recognized primitive; the first unrecognized tag, in depth-first field
/// order, is reported.
pub open spec fn check_type(t: TypeD) -> Result<(), SchemaErrorV>
    decreases t,
{
    match t {
        TypeD::Prim { name } => if supported_primitive(name) {
            Ok(())
        } else {
            Err(SchemaErrorV::UnsupportedPrimitive { name })
        },
        TypeD::FixedArr { elem, len } => check_type(*elem),
        TypeD::Sequence { elem } => check_type(*elem),
        TypeD::Optional { inner } => check_type(*inner),
        TypeD::Mapping { key, value } => if check_type(*key) is Err {
            check_type(*key)
        } else {
            check_type(*value)
        },
        TypeD::Ref { name } => Ok(()),
    }
}

/// Validates an ordered field list, reporting the first offending type.
pub open spec fn check_fields(fs: Seq<FieldV>) -> Result<(), SchemaErrorV>
    decreases fs.len(),
{
    if fs.len() == 0 {
        Ok(())
    } else if check_type(fs[0].ty) is Err {
        check_type(fs[0].ty)
    } else {
        check_fields(fs.drop_first())
    }
}

/// Validates one declaration: a tagged union must declare at least one
/// variant, and every field type must pass `check_type`.
pub open spec fn check_decl(d: LayoutV) -> Result<(), SchemaErrorV> {
    if d.kind == LayoutKind::TaggedUnion && d.fields.len() == 0 {
        Err(SchemaErrorV::MalformedUnion { name: d.name })
    } else {
        check_fields(d.fields)
    }
}

/// The image of a unit-or-error result.
pub open spec fn check_result_view(r: Result<(), SchemaError>) -> Result<(), SchemaErrorV> {
    match r {
        Ok(u) => Ok(u),
        Err(e) => Err(e@),
    }
}

fn check_type_exec(t: &TypeDescriptor) -> (r: Result<(), SchemaError>)
    ensures
        check_result_view(r) == check_type(t@),
    decreases *t,
{
    match t {
        TypeDescriptor::Primitive(p) => {
            if is_supported_primitive(p) {
                Ok(())
            } else {
                Err(SchemaError::UnsupportedPrimitive(p.clone()))
            }
        },
        TypeDescriptor::FixedArray(e, _n) => check_type_exec(e),
        TypeDescriptor::Sequence(e) => check_type_exec(e),
        TypeDescriptor::Optional(e) => check_type_exec(e),
        TypeDescriptor::Mapping(k, v) => {
            let rk = check_type_exec(k);
            if rk.is_err() {
                rk
            } else {
                check_type_exec(v)
            }
        },
        TypeDescriptor::TypeRef(_s) => Ok(()),
    }
}

fn check_fields_exec(fs: &Vec<Field>) -> (r: Result<(), SchemaError>)
    ensures
        check_result_view(r) == check_fields(fields_view(fs@)),
{
    let ghost fv = fields_view(fs@);
    proof {
        assert(fv.skip(0) =~= fv);
    }
    let mut i: usize = 0;
    while i < fs.len()
        invariant
            i <= fs.len(),
            fv == fields_view(fs@),
            check_fields(fv) == check_fields(fv.skip(i as int)),
        decreases fs.len() - i,
    {
        let rt = check_type_exec(&fs[i].ty);
        proof {
            assert(fv.skip(i as int)[0] == fv[i as int]);
            assert(fv.skip(i as int).drop_first() =~= fv.skip(i + 1 as int));
        }
        if rt.is_err() {
            return rt;
        }
        i = i + 1;
    }
    proof {
        assert(fv.skip(fs@.len() as int) =~= Seq::<FieldV>::empty());
    }
    Ok(())
}

fn check_decl_exec(d: &TypeDecl) -> (r: Result<(), SchemaError>)
    ensures
        check_result_view(r) == check_decl(d@),
{
    let is_union = match d.kind {
        LayoutKind::Record => false,
        LayoutKind::TaggedUnion => true,
    };
    if is_union && d.fields.len() == 0 {
        Err(SchemaError::MalformedUnion(d.name.clone()))
    } else {
        check_fields_exec(&d.fields)
    }
}

/// Every type name referenced by one type descriptor, in depth-first order.
pub open spec fn type_refs(t: TypeD) -> Seq<Seq<char>>
    decreases t,
{
    match t {
        TypeD::Prim { name } => Seq::empty(),
        TypeD::FixedArr { elem, len } => type_refs(*elem),
        TypeD::Sequence { elem } => type_refs(*elem),
        TypeD::Optional { inner } => type_refs(*inner),
        TypeD::Mapping { key, value } => type_refs(*key) + type_refs(*value),
        TypeD::Ref { name } => seq![name],
    }
}

/// Every type name referenced by an ordered field list, in field order.
pub open spec fn fields_refs(fs: Seq<FieldV>) -> Seq<Seq<char>>
    decreases fs.len(),
{
    if fs.len() == 0 {
        Seq::empty()
    } else {
        fields_refs(fs.drop_last()) + type_refs(fs.last().ty)
    }
}

/// Every type name one declaration references.
pub open spec fn decl_refs(d: LayoutV) -> Seq<Seq<char>> {
    fields_refs(d.fields)
}

fn collect_type_refs(t: &TypeDescriptor, out: &mut Vec<String>)
    ensures
        names_view(final(out)@) == names_view(old(out)@) + type_refs(t@),
    decreases *t,
{
    match t {
        TypeDescriptor::Primitive(_p) => {
            proof {
                assert(names_view(out@) =~= names_view(out@) + type_refs(t@));
            }
        },
        TypeDescriptor::FixedArray(e, _n) => collect_type_refs(e, out),
        TypeDescriptor::Sequence(e) => collect_type_refs(e, out),
        TypeDescriptor::Optional(e) => collect_type_refs(e, out),
        TypeDescriptor::Mapping(k, v) => {
            collect_type_refs(k, out);
            collect_type_refs(v, out);
            proof {
                assert(names_view(out@) =~= names_view(old(out)@) + type_refs(t@));
            }
        },
        TypeDescriptor::TypeRef(s) => {
            out.push(s.clone());
            proof {
                assert(names_view(out@) =~= names_view(old(out)@) + type_refs(t@));
            }
        },
    }
}

fn collect_field_refs(fs: &Vec<Field>, out: &mut Vec<String>)
    ensures
        names_view(final(out)@) == names_view(old(out)@) + fields_refs(fields_view(fs@)),
{
    let ghost fv = fields_view(fs@);
    let mut i: usize = 0;
    while i < fs.len()
        invariant
            i <= fs.len(),
            fv == fields_view(fs@),
            names_view(out@) == names_view(old(out)@) + fields_refs(fv.take(i as int)),
        decreases fs.len() - i,
    {
        collect_type_refs(&fs[i].ty, out);
        proof {
            assert(fv.take(i + 1 as int).drop_last() =~= fv.take(i as int));
            assert(fv.take(i + 1 as int).last() == fv[i as int]);
            assert(names_view(old(out)@) + fields_refs(fv.take(i + 1 as int)) =~= names_view(
                out@,
            ));
        }
        i = i + 1;
    }
    proof {
        assert(fv.take(fs@.len() as int) =~= fv);
    }
}

/// The first declaration carrying a name, if the container holds one.
pub open spec fn lookup(cv: Seq<LayoutV>, name: Seq<char>) -> Option<LayoutV>
    decreases cv.len(),
{
    if cv.len() == 0 {
        None
    } else if cv[0].name == name {
        Some(cv[0])
    } else {
        lookup(cv.drop_first(), name)
    }
}

/// Whether some layout in a collection carries a name.
pub open spec fn contains_name(ls: Seq<LayoutV>, name: Seq<char>) -> bool {
    exists|k: int| 0 <= k < ls.len() && ls[k].name == name
}

/// A successful lookup returns a declaration carrying the requested name,
/// and witnesses that the container holds that name.
pub proof fn lemma_lookup_found(cv: Seq<LayoutV>, name: Seq<char>)
    requires
        lookup(cv, name) is Some,
    ensures
        lookup(cv, name)->Some_0.name == name,
        contains_name(cv, name),
    decreases cv.len(),
{
    if cv.len() > 0 && cv[0].name != name {
        lemma_lookup_found(cv.drop_first(), name);
        let k = choose|k: int| 0 <= k < cv.drop_first().len() && cv.drop_first()[k].name == name;
        assert(cv[k + 1].name == name);
    }
}

fn find_decl<'a>(container: &'a SchemaContainer, name: &String) -> (r: Option<&'a TypeDecl>)
    ensures
        match r {
            Some(d) => lookup(container@, name@) == Some(d@),
            None => lookup(container@, name@) is None,
        },
{
    let ghost cv = container@;
    proof {
        assert(cv.skip(0) =~= cv);
    }
    let mut i: usize = 0;
    while i < container.decls.len()
        invariant
            i <= container.decls.len(),
            cv == container@,
            lookup(cv, name@) == lookup(cv.skip(i as int), name@),
        decreases container.decls.len() - i,
    {
        proof {
            assert(cv.skip(i as int)[0] == cv[i as int]);
            assert(cv.skip(i as int).drop_first() =~= cv.skip(i + 1 as int));
        }
        if container.decls[i].name == *name {
            return Some(&container.decls[i]);
        }
        i = i + 1;
    }
    proof {
        assert(cv.skip(container.decls@.len() as int) =~= Seq::<LayoutV>::empty());
    }
    None
}

fn contains_name_exec(acc: &Vec<Layout>, name: &String) -> (b: bool)
    ensures
        b == contains_name(layouts_view(acc@), name@),
{
    let ghost av = layouts_view(acc@);
    let mut i: usize = 0;
    while i < acc.len()
        invariant
            i <= acc.len(),
            av == layouts_view(acc@),
            forall|k: int| 0 <= k < i ==> av[k].name != name@,
        decreases acc.len() - i,
    {
        if acc[i].name == *name {
            proof {
                assert(av[i as int].name == name@);
            }
            return true;
        }
        i = i + 1;
    }
    false
}

fn clone_type(t: &TypeDescriptor) -> (r: TypeDescriptor)
    ensures
        r@ == t@,
    decreases *t,
{
    match t {
        TypeDescriptor::Primitive(s) => TypeDescriptor::Primitive(s.clone()),
        TypeDescriptor::FixedArray(e, n) => TypeDescriptor::FixedArray(
            Box::new(clone_type(e)),
            *n,
        ),
        TypeDescriptor::Sequence(e) => TypeDescriptor::Sequence(Box::new(clone_type(e))),
        TypeDescriptor::Optional(e) => TypeDescriptor::Optional(Box::new(clone_type(e))),
        TypeDescriptor::Mapping(k, v) => TypeDescriptor::Mapping(
            Box::new(clone_type(k)),
            Box::new(clone_type(v)),
        ),
        TypeDescriptor::TypeRef(s) => TypeDescriptor::TypeRef(s.clone()),
    }
}

fn clone_fields(fs: &Vec<Field>) -> (r: Vec<Field>)
    ensures
        fields_view(r@) == fields_view(fs@),
{
    let mut out: Vec<Field> = Vec::new();
    let mut i: usize = 0;
    while i < fs.len()
        invariant
            i <= fs.len(),
            fields_view(out@) == fields_view(fs@).take(i as int),
        decreases fs.len() - i,
    {
        let f = Field { name: fs[i].name.clone(), ty: clone_type(&fs[i].ty) };
        proof {
            assert(f@ == fields_view(fs@)[i as int]);
            assert(fields_view(fs@)[i as int] == fs@[i as int]@);
        }
        let ghost pre = out@;
        let ghost ff = f@;
        out.push(f);
        proof {
            assert(fields_view(pre).len() == pre.len());
            assert(pre.len() == i as int);
            assert(out@ == pre.push(out@[i as int]));
            assert(out@.len() == i as int + 1);
            assert(out@[i as int]@ == ff);
            assert forall|k: int| 0 <= k < i as int + 1 implies fields_view(out@)[k]
                == fields_view(fs@).take(i as int + 1)[k] by {
                assert(fields_view(out@)[k] == out@[k]@);
                assert(fields_view(fs@).take(i as int + 1)[k] == fields_view(fs@)[k]);
                assert(fields_view(fs@)[k] == fs@[k]@);
                if k < i as int {
                    assert(out@[k] == pre[k]);
                    assert(fields_view(pre)[k] == pre[k]@);
                    assert(fields_view(pre)[k] == fields_view(fs@).take(i as int)[k]);
                    assert(fields_view(fs@).take(i as int)[k] == fields_view(fs@)[k]);
                } else {
                    assert(out@[k]@ == fs@[i as int]@);
                }
            }
            assert(fields_view(out@) =~= fields_view(fs@).take(i as int + 1));
        }
        i = i + 1;
    }
    proof {
        assert(fields_view(fs@).take(fs@.len() as int) =~= fields_view(fs@));
    }
    out
}

fn clone_strings(v: &Vec<String>) -> (r: Vec<String>)
    ensures
        names_view(r@) == names_view(v@),
{
    let mut out: Vec<String> = Vec::new();
    let mut i: usize = 0;
    while i < v.len()
        invariant
            i <= v.len(),
            names_view(out@) == names_view(v@).take(i as int),
        decreases v.len() - i,
    {
        let ghost pre = out@;
        out.push(v[i].clone());
        proof {
            assert(names_view(pre).len() == pre.len());
            assert(pre.len() == i as int);
            assert(out@ == pre.push(out@[i as int]));
            assert(out@.len() == i as int + 1);
            assert(out@[i as int] == v@[i as int]);
            assert forall|k: int| 0 <= k < i as int + 1 implies names_view(out@)[k]
                == names_view(v@).take(i as int + 1)[k] by {
                assert(names_view(out@)[k] == out@[k]@);
                assert(names_view(v@).take(i as int + 1)[k] == v@[k]@);
                if k < i as int {
                    assert(out@[k] == pre[k]);
                    assert(names_view(pre)[k] == pre[k]@);
                    assert(names_view(pre)[k] == names_view(v@).take(i as int)[k]);
                    assert(names_view(v@).take(i as int)[k] == v@[k]@);
                }
            }
            assert(names_view(out@) =~= names_view(v@).take(i as int + 1));
        }
        i = i + 1;
    }
    proof {
        assert(names_view(v@).take(v@.len() as int) =~= names_view(v@));
    }
    out
}

/// No two layouts in the collection carry the same name.
pub open spec fn distinct_names(ls: Seq<LayoutV>) -> bool {
    forall|i: int, j: int| 0 <= i < j < ls.len() ==> ls[i].name != ls[j].name
}

/// Pigeonhole bound: a duplicate-free collection whose every name occurs in
/// the container cannot outgrow the container.
proof fn lemma_distinct_contained_bound(ls: Seq<LayoutV>, cv: Seq<LayoutV>)
    requires
        distinct_names(ls),
        forall|k: int| 0 <= k < ls.len() ==> contains_name(cv, #[trigger] ls[k].name),
    ensures
        ls.len() <= cv.len(),
    decreases ls.len(),
{
    if ls.len() > 0 {
        let l = ls.last();
        assert(contains_name(cv, ls[ls.len() - 1].name));
        let m = choose|m: int| 0 <= m < cv.len() && cv[m].name == l.name;
        let cv2 = cv.remove(m);
        let ls2 = ls.drop_last();
        assert forall|k: int| 0 <= k < ls2.len() implies contains_name(
            cv2,
            #[trigger] ls2[k].name,
        ) by {
            assert(ls2[k] == ls[k]);
            assert(contains_name(cv, ls[k].name));
            let j = choose|j: int| 0 <= j < cv.len() && cv[j].name == ls[k].name;
            assert(ls[k].name != l.name);
            if j < m {
                assert(cv2[j] == cv[j]);
            } else {
                assert(j != m);
                assert(cv2[j - 1] == cv[j]);
            }
        }
        lemma_distinct_contained_bound(ls2, cv2);
    }
}

/// One resolution step over a pending-name queue: a name already resolved
/// is skipped; an unknown name aborts; a fresh declaration is validated,
/// appended, and its own references are queued. The fuel only bounds the
/// recursion; one unit per container declaration always suffices, since
/// every consumed unit adds a distinct declared name to the accumulator.
pub open spec fn spec_build_step(
    cv: Seq<LayoutV>,
    queue: Seq<Seq<char>>,
    acc: Seq<LayoutV>,
    fuel: nat,
) -> Result<Seq<LayoutV>, SchemaErrorV>
    decreases fuel, queue.len(),
{
    if queue.len() == 0 {
        Ok(acc)
    } else {
        let n = queue[0];
        if contains_name(acc, n) {
            spec_build_step(cv, queue.drop_first(), acc, fuel)
        } else {
            match lookup(cv, n) {
                Option::None => Err(SchemaErrorV::UnresolvedReference { name: n }),
                Option::Some(d) => match check_decl(d) {
                    Err(e) => Err(e),
                    Ok(_) => if fuel == 0 {
                        arbitrary()
                    } else {
                        spec_build_step(
                            cv,
                            queue.drop_first() + decl_refs(d),
                            acc.push(d),
                            (fuel - 1) as nat,
                        )
                    },
                },
            }
        }
    }
}

/// What layout construction yields for a container and a root list: every
/// type reachable from the roots, resolved in encounter order, or the
/// first error the traversal meets.
pub open spec fn spec_build(cv: Seq<LayoutV>, roots: Seq<Seq<char>>) -> Result<
    Seq<LayoutV>,
    SchemaErrorV,
> {
    spec_build_step(cv, roots, Seq::empty(), cv.len())
}

/// Resolves every type reachable from the requested roots into one
/// validated layout per distinct name, in encounter order. The result is
/// pinned to `spec_build`, so resolution is deterministic and idempotent:
/// equal containers and roots always yield structurally equal layouts, and
/// exactly the error conditions of the specification reject the input.
pub fn build_layouts(container: &SchemaContainer, roots: &Vec<String>) -> (r: Result<
    Vec<Layout>,
    SchemaError,
>)
    ensures
        ({
            let s = spec_build(container@, names_view(roots@));
            match r {
                Ok(ls) => s is Ok && layouts_view(ls@) == s->Ok_0,
                Err(e) => s is Err && e@ == s->Err_0,
            }
        }),
{
    let ghost cv = container@;
    let ghost rv = names_view(roots@);
    let mut queue: Vec<String> = clone_strings(roots);
    let mut acc: Vec<Layout> = Vec::new();
    let mut head: usize = 0;
    let ghost mut fuel: nat = cv.len();
    proof {
        assert(layouts_view(acc@) =~= Seq::<LayoutV>::empty());
        assert(names_view(queue@).skip(0) =~= rv);
    }
    while head < queue.len()
        invariant
            head <= queue.len(),
            cv == container@,
            rv == names_view(roots@),
            acc@.len() + fuel == cv.len(),
            spec_build(cv, rv) == spec_build_step(
                cv,
                names_view(queue@).skip(head as int),
                layouts_view(acc@),
                fuel,
            ),
            distinct_names(layouts_view(acc@)),
            forall|k: int| 0 <= k < acc@.len() ==> contains_name(
                cv,
                #[trigger] layouts_view(acc@)[k].name,
            ),
        decreases fuel, queue.len() - head,
    {
        let ghost qs = names_view(queue@).skip(head as int);
        let ghost av = layouts_view(acc@);
        let n = queue[head].clone();
        proof {
            assert(qs.len() == queue@.len() - head as int);
            assert(qs[0] == queue@[head as int]@);
        }
        if contains_name_exec(&acc, &n) {
            proof {
                assert(qs.drop_first() =~= names_view(queue@).skip(head as int + 1));
            }
            head = head + 1;
        } else {
            match find_decl(container, &n) {
                Option::None => {
                    proof {
                        assert(spec_build_step(cv, qs, av, fuel) == Err::<
                            Seq<LayoutV>,
                            SchemaErrorV,
                        >(SchemaErrorV::UnresolvedReference { name: n@ }));
                    }
                    return Err(SchemaError::UnresolvedReference(n));
                },
                Option::Some(d) => {
                    match check_decl_exec(d) {
                        Err(e) => {
                            proof {
                                assert(spec_build_step(cv, qs, av, fuel) == Err::<
                                    Seq<LayoutV>,
                                    SchemaErrorV,
                                >(e@));
                            }
                            return Err(e);
                        },
                        Ok(_) => {
                            proof {
                                lemma_lookup_found(cv, n@);
                                assert(d@.name == n@);
                                let av2 = av.push(d@);
                                assert forall|i: int, j: int| 0 <= i < j < av2.len() implies
                                    av2[i].name != av2[j].name by {
                                    if j < av2.len() - 1 {
                                        assert(av2[i] == av[i] && av2[j] == av[j]);
                                    } else {
                                        assert(av2[i] == av[i]);
                                        assert(!contains_name(av, n@));
                                        assert(av[i].name != n@);
                                    }
                                }
                                assert forall|k: int| 0 <= k < av2.len() implies contains_name(
                                    cv,
                                    #[trigger] av2[k].name,
                                ) by {
                                    if k < av2.len() - 1 {
                                        assert(av2[k] == av[k]);
                                        assert(contains_name(cv, layouts_view(acc@)[k].name));
                                    } else {
                                        assert(av2[k].name == n@);
                                    }
                                }
                                lemma_distinct_contained_bound(av2, cv);
                                assert(fuel >= 1);
                            }
                            let new_layout = Layout {
                                name: d.name.clone(),
                                kind: d.kind,
                                fields: clone_fields(&d.fields),
                            };
                            proof {
                                assert(new_layout@ =~= d@);
                            }
                            let ghost accpre = acc@;
                            acc.push(new_layout);
                            let ghost qpre = queue@;
                            collect_field_refs(&d.fields, &mut queue);
                            let ghost oldfuel = fuel;
                            let ghost oldhead = head as int;
                            proof {
                                fuel = (fuel - 1) as nat;
                            }
                            head = head + 1;
                            proof {
                                assert forall|k: int| 0 <= k < acc@.len() implies layouts_view(
                                    acc@,
                                )[k] == av.push(d@)[k] by {
                                    assert(layouts_view(acc@)[k] == acc@[k]@);
                                    if k < acc@.len() - 1 {
                                        assert(acc@[k] == accpre[k]);
                                        assert(layouts_view(accpre)[k] == accpre[k]@);
                                    } else {
                                        assert(acc@[k]@ =~= d@);
                                    }
                                }
                                assert(layouts_view(acc@) =~= av.push(d@));
                                assert(names_view(queue@) == names_view(qpre) + decl_refs(d@));
                                assert(names_view(queue@).skip(head as int) =~= qs.drop_first()
                                    + decl_refs(d@));
                                assert(spec_build_step(cv, qs, av, oldfuel)
                                    == spec_build_step(
                                    cv,
                                    qs.drop_first() + decl_refs(d@),
                                    av.push(d@),
                                    (oldfuel - 1) as nat,
                                ));
                            }
                        },
                    }
                },
            }
        }
    }
    proof {
        assert(names_view(queue@).skip(head as int) =~= Seq::<Seq<char>>::empty());
        assert(spec_build(cv, rv) == Ok::<Seq<LayoutV>, SchemaErrorV>(layouts_view(acc@)));
    }
    Ok(acc)
}

/// Every reference inside the collection resolves inside the collection:
/// each name a layout's fields mention is carried by some layout present.
pub open spec fn closed(ls: Seq<LayoutV>) -> bool {
    forall|k: int, r: int|
        0 <= k < ls.len() && 0 <= r < decl_refs(ls[k]).len() ==> contains_name(
            ls,
            #[trigger] decl_refs(ls[k])[r],
        )
}

proof fn lemma_step_properties(
    cv: Seq<LayoutV>,
    queue: Seq<Seq<char>>,
    acc: Seq<LayoutV>,
    fuel: nat,
)
    requires
        distinct_names(acc),
        forall|k: int, r: int|
            0 <= k < acc.len() && 0 <= r < decl_refs(acc[k]).len() ==> contains_name(
                acc,
                #[trigger] decl_refs(acc[k])[r],
            ) || queue.contains(decl_refs(acc[k])[r]),
        forall|k: int| 0 <= k < acc.len() ==> lookup(cv, #[trigger] acc[k].name) == Some(acc[k]),
        forall|k: int| 0 <= k < acc.len() ==> check_decl(#[trigger] acc[k]) is Ok,
        acc.len() + fuel >= cv.len(),
    ensures
        spec_build_step(cv, queue, acc, fuel) matches Ok(res) ==> {
            &&& distinct_names(res)
            &&& closed(res)
            &&& forall|i: int| 0 <= i < queue.len() ==> contains_name(res, #[trigger] queue[i])
            &&& forall|nm: Seq<char>|
                #[trigger] contains_name(acc, nm) ==> contains_name(res, nm)
            &&& forall|k: int|
                0 <= k < res.len() ==> lookup(cv, #[trigger] res[k].name) == Some(res[k])
            &&& forall|k: int| 0 <= k < res.len() ==> check_decl(#[trigger] res[k]) is Ok
        },
    decreases fuel, queue.len(),
{
    if queue.len() == 0 {
    } else {
        let n = queue[0];
        if contains_name(acc, n) {
            let q2 = queue.drop_first();
            assert forall|k: int, r: int|
                0 <= k < acc.len() && 0 <= r < decl_refs(acc[k]).len() implies contains_name(
                acc,
                #[trigger] decl_refs(acc[k])[r],
            ) || q2.contains(decl_refs(acc[k])[r]) by {
                let rf = decl_refs(acc[k])[r];
                if !contains_name(acc, rf) {
                    let i = choose|i: int| 0 <= i < queue.len() && queue[i] == rf;
                    if i == 0 {
                        assert(contains_name(acc, rf));
                    } else {
                        assert(q2[i - 1] == rf);
                    }
                }
            }
            lemma_step_properties(cv, q2, acc, fuel);
            if spec_build_step(cv, queue, acc, fuel) is Ok {
                let res = spec_build_step(cv, queue, acc, fuel)->Ok_0;
                assert forall|i: int| 0 <= i < queue.len() implies contains_name(
                    res,
                    #[trigger] queue[i],
                ) by {
                    if i == 0 {
                        assert(contains_name(acc, n));
                    } else {
                        assert(q2[i - 1] == queue[i]);
                        assert(contains_name(res, q2[i - 1]));
                    }
                }
            }
        } else {
            match lookup(cv, n) {
                Option::None => {},
                Option::Some(d) => {
                    if check_decl(d) is Ok {
                        lemma_lookup_found(cv, n);
                        let acc2 = acc.push(d);
                        let q2 = queue.drop_first() + decl_refs(d);
                        assert forall|k: int| 0 <= k < acc2.len() implies contains_name(
                            cv,
                            #[trigger] acc2[k].name,
                        ) by {
                            if k < acc2.len() - 1 {
                                assert(acc2[k] == acc[k]);
                                assert(lookup(cv, acc[k].name) == Some(acc[k]));
                                lemma_lookup_found(cv, acc[k].name);
                            } else {
                                assert(acc2[k].name == n);
                            }
                        }
                        assert forall|i: int, j: int| 0 <= i < j < acc2.len() implies acc2[i].name
                            != acc2[j].name by {
                            if j < acc2.len() - 1 {
                                assert(acc2[i] == acc[i] && acc2[j] == acc[j]);
                            } else {
                                assert(acc2[i] == acc[i]);
                                assert(!contains_name(acc, n));
                                assert(acc[i].name != n);
                            }
                        }
                        lemma_distinct_contained_bound(acc2, cv);
                        assert(fuel > 0);
                        assert forall|k: int, r: int|
                            0 <= k < acc2.len() && 0 <= r < decl_refs(acc2[k]).len() implies
                            contains_name(acc2, #[trigger] decl_refs(acc2[k])[r]) || q2.contains(
                            decl_refs(acc2[k])[r],
                        ) by {
                            let rf = decl_refs(acc2[k])[r];
                            if k < acc2.len() - 1 {
                                assert(acc2[k] == acc[k]);
                                assert(contains_name(acc, decl_refs(acc[k])[r]) || queue.contains(
                                    decl_refs(acc[k])[r],
                                ));
                                if contains_name(acc, rf) {
                                    let w = choose|w: int|
                                        0 <= w < acc.len() && acc[w].name == rf;
                                    assert(acc2[w].name == rf);
                                } else {
                                    let i = choose|i: int|
                                        0 <= i < queue.len() && queue[i] == rf;
                                    if i == 0 {
                                        assert(acc2[acc.len() as int].name == n);
                                        assert(contains_name(acc2, rf));
                                    } else {
                                        assert(q2[i - 1] == rf);
                                    }
                                }
                            } else {
                                assert(acc2[k] == d);
                                assert(q2[queue.len() - 1 + r] == rf);
                            }
                        }
                        assert forall|k: int| 0 <= k < acc2.len() implies lookup(
                            cv,
                            #[trigger] acc2[k].name,
                        ) == Some(acc2[k]) by {
                            if k < acc2.len() - 1 {
                                assert(acc2[k] == acc[k]);
                                assert(lookup(cv, acc[k].name) == Some(acc[k]));
                            } else {
                                assert(acc2[k] == d && d.name == n);
                            }
                        }
                        assert forall|k: int| 0 <= k < acc2.len() implies check_decl(
                            #[trigger] acc2[k],
                        ) is Ok by {
                            if k < acc2.len() - 1 {
                                assert(acc2[k] == acc[k]);
                                assert(check_decl(acc[k]) is Ok);
                            }
                        }
                        lemma_step_properties(cv, q2, acc2, (fuel - 1) as nat);
                        if spec_build_step(cv, queue, acc, fuel) is Ok {
                            let res = spec_build_step(cv, queue, acc, fuel)->Ok_0;
                            assert(spec_build_step(cv, q2, acc2, (fuel - 1) as nat) == Ok::<
                                Seq<LayoutV>,
                                SchemaErrorV,
                            >(res));
                            assert forall|nm: Seq<char>|
                                #[trigger] contains_name(acc, nm) implies contains_name(
                                res,
                                nm,
                            ) by {
                                let w = choose|w: int| 0 <= w < acc.len() && acc[w].name == nm;
                                assert(acc2[w].name == nm);
                                assert(contains_name(acc2, nm));
                            }
                            assert forall|i: int| 0 <= i < queue.len() implies contains_name(
                                res,
                                #[trigger] queue[i],
                            ) by {
                                if i == 0 {
                                    assert(acc2[acc.len() as int].name == n);
                                    assert(contains_name(acc2, n));
                                } else {
                                    assert(q2[i - 1] == queue[i]);
                                    assert(contains_name(res, q2[i - 1]));
                                }
                            }
                        }
                    }
                },
            }
        }
    }
}

/// What a successful resolution guarantees, all at once: no two layouts
/// share a name, every name a field references is itself present in the
/// collection (so omitting a referenced declaration can never slip
/// through), every requested root is present, and each layout is verbatim
/// the first container declaration under its name, validated.
pub proof fn lemma_build_properties(cv: Seq<LayoutV>, roots: Seq<Seq<char>>)
    ensures
        spec_build(cv, roots) matches Ok(res) ==> {
            &&& distinct_names(res)
            &&& closed(res)
            &&& forall|i: int| 0 <= i < roots.len() ==> contains_name(res, #[trigger] roots[i])
            &&& forall|k: int|
                0 <= k < res.len() ==> lookup(cv, #[trigger] res[k].name) == Some(res[k])
            &&& forall|k: int| 0 <= k < res.len() ==> check_decl(#[trigger] res[k]) is Ok
        },
{
    lemma_step_properties(cv, roots, Seq::empty(), cv.len());
}

/// Omitting a referenced declaration can never succeed: when a requested
/// root's declaration references a name the container does not hold,
/// resolution fails rather than returning a partial layout set.
pub proof fn lemma_missing_reference_rejected(cv: Seq<LayoutV>, roots: Seq<Seq<char>>, i: int, r: int)
    requires
        0 <= i < roots.len(),
        lookup(cv, roots[i]) is Some,
        0 <= r < decl_refs(lookup(cv, roots[i])->Some_0).len(),
        !contains_name(cv, decl_refs(lookup(cv, roots[i])->Some_0)[r]),
    ensures
        spec_build(cv, roots) is Err,
{
    if spec_build(cv, roots) is Ok {
        lemma_build_properties(cv, roots);
        let res = spec_build(cv, roots)->Ok_0;
        assert(contains_name(res, roots[i]));
        let k = choose|k: int| 0 <= k < res.len() && res[k].name == roots[i];
        assert(lookup(cv, res[k].name) == Some(res[k]));
        let d = lookup(cv, roots[i])->Some_0;
        assert(res[k] == d);
        let rf = decl_refs(d)[r];
        assert(contains_name(res, rf));
        let w = choose|w: int| 0 <= w < res.len() && res[w].name == rf;
        assert(lookup(cv, res[w].name) == Some(res[w]));
        lemma_lookup_found(cv, rf);
        assert(false);
    }
}

} // verus!
