//! The translators: from a source contract-like definition to a
//! translated definition, one section at a time.
use vstd::prelude::*;
use vstd::string::StringExecFns;
use crate::casing::{snake_case_of, to_snake_case, to_upper_snake_case, upper_snake_case_of};
use crate::errors::{Error, UnsupportedConstruct};
use crate::project::{map_type_name, translate_type_name, Project};
use crate::solidity;
use crate::sway;
use crate::translate::{is_contract_impl, TranslatedDefinition};

verus! {

/// The mapped spellings of a list of source type names.
pub open spec fn mapped_views(fields: Seq<String>) -> Seq<Seq<char>> {
    fields.map_values(|f: String| map_type_name(f@))
}

/// The names joined with a comma and a space.
pub open spec fn join_comma(names: Seq<Seq<char>>) -> Seq<char>
    decreases names.len(),
{
    if names.len() == 0 {
        Seq::empty()
    } else if names.len() == 1 {
        names[0]
    } else {
        join_comma(names.drop_last()) + ", "@ + names.last()
    }
}

/// The synthesized tuple spelling of a list of type names.
pub open spec fn tuple_type_name(names: Seq<Seq<char>>) -> Seq<char> {
    "("@ + join_comma(names) + ")"@
}

/// Builds the synthesized tuple type over the mapped field types.
pub fn tuple_type_of(fields: &Vec<String>) -> (r: sway::TypeName)
    ensures
        r.name@ == tuple_type_name(mapped_views(fields@)),
{
    let ghost mapped = mapped_views(fields@);
    let mut s = "(".to_owned();
    let n = fields.len();
    let mut i: usize = 0;
    proof {
        assert(s@ =~= "("@ + join_comma(mapped.take(0int)));
    }
    while i < n
        invariant
            mapped == mapped_views(fields@),
            n == fields@.len(),
            n == mapped.len(),
            0 <= i <= n,
            s@ == "("@ + join_comma(mapped.take(i as int)),
        decreases n - i,
    {
        let ghost ii = i as int;
        if i > 0 {
            s.append(", ");
        }
        let t = translate_type_name(fields[i].as_str());
        s.append(t.name.as_str());
        proof {
            assert(mapped.take(ii + 1).drop_last() =~= mapped.take(ii));
            assert(mapped.take(ii + 1).last() == mapped[ii]);
            if ii == 0 {
                assert(s@ =~= "("@ + join_comma(mapped.take(ii + 1)));
            } else {
                assert(s@ =~= "("@ + (join_comma(mapped.take(ii)) + ", "@ + mapped[ii]));
            }
        }
        i += 1;
    }
    proof {
        assert(mapped.take(n as int) =~= mapped);
    }
    s.append(")");
    proof {
        assert(s@ =~= tuple_type_name(mapped));
    }
    sway::TypeName { name: s }
}

/// The target enum variant an event or error declaration yields: the
/// declaration's name, with the synthesized tuple of its mapped field
/// types as payload.
pub open spec fn variant_matches(
    name: Seq<char>,
    fields: Seq<String>,
    v: sway::EnumVariant,
) -> bool {
    v.name@ == name && v.ty.name@ == tuple_type_name(mapped_views(fields))
}

/// The target parameter a source declaration yields: name rewritten to
/// snake_case, type mapped.
pub open spec fn param_matches(p: solidity::VariableDeclaration, sp: sway::Parameter) -> bool {
    sp.name@ == snake_case_of(p.name@) && sp.ty.name@ == map_type_name(p.ty@)
}

/// The target return type a source return list yields: absent for none,
/// the single mapped type for one, the synthesized tuple for several.
pub open spec fn return_matches(return_types: Seq<String>, rt: Option<sway::TypeName>) -> bool {
    match rt {
        None => return_types.len() == 0,
        Some(t) => if return_types.len() == 1 {
            t.name@ == map_type_name(return_types[0]@)
        } else {
            return_types.len() > 1 && t.name@ == tuple_type_name(mapped_views(return_types))
        },
    }
}

/// The ABI entry an interface function declaration yields.
pub open spec fn interface_fn_matches(
    f: solidity::FunctionDefinition,
    sf: sway::Function,
) -> bool {
    &&& !sf.is_public
    &&& sf.name@ == snake_case_of(f.name@)
    &&& sf.parameters@.len() == f.params@.len()
    &&& forall|i: int|
        0 <= i < f.params@.len() ==> param_matches(f.params@[i], #[trigger] sf.parameters@[i])
    &&& return_matches(f.return_types@, sf.return_type)
    &&& sf.body is None
}

/// The event declarations among the parts, in order.
pub open spec fn event_definitions(parts: Seq<solidity::ContractPart>) -> Seq<
    solidity::EventDefinition,
>
    decreases parts.len(),
{
    if parts.len() == 0 {
        Seq::empty()
    } else {
        event_definitions(parts.drop_last()) + (match parts.last() {
            solidity::ContractPart::EventDefinition(ev) => seq![ev],
            _ => Seq::empty(),
        })
    }
}

/// The error declarations among the parts, in order.
pub open spec fn error_definitions(parts: Seq<solidity::ContractPart>) -> Seq<
    solidity::ErrorDefinition,
>
    decreases parts.len(),
{
    if parts.len() == 0 {
        Seq::empty()
    } else {
        error_definitions(parts.drop_last()) + (match parts.last() {
            solidity::ContractPart::ErrorDefinition(er) => seq![er],
            _ => Seq::empty(),
        })
    }
}

/// The function declarations among the parts, in order.
pub open spec fn function_definitions(parts: Seq<solidity::ContractPart>) -> Seq<
    solidity::FunctionDefinition,
>
    decreases parts.len(),
{
    if parts.len() == 0 {
        Seq::empty()
    } else {
        function_definitions(parts.drop_last()) + (match parts.last() {
            solidity::ContractPart::FunctionDefinition(f) => seq![f],
            _ => Seq::empty(),
        })
    }
}

/// The construct an interface part leaves unsupported, if any.
pub open spec fn interface_part_error(p: solidity::ContractPart) -> Option<Error> {
    match p {
        solidity::ContractPart::VariableDefinition(_) => Some(
            Error::UnsupportedConstruct(UnsupportedConstruct::InterfaceVariable),
        ),
        solidity::ContractPart::Using => Some(
            Error::UnsupportedConstruct(UnsupportedConstruct::InterfaceUsing),
        ),
        _ => None,
    }
}

/// The first unsupported construct among an interface's parts, if any.
pub open spec fn interface_first_error(parts: Seq<solidity::ContractPart>) -> Option<Error>
    decreases parts.len(),
{
    if parts.len() == 0 {
        None
    } else {
        match interface_first_error(parts.drop_last()) {
            Some(e) => Some(e),
            None => interface_part_error(parts.last()),
        }
    }
}

proof fn lemma_interface_err_persists(parts: Seq<solidity::ContractPart>, j: int)
    requires
        0 <= j <= parts.len(),
        interface_first_error(parts.take(j)) is Some,
    ensures
        interface_first_error(parts) == interface_first_error(parts.take(j)),
    decreases parts.len() - j,
{
    if j < parts.len() {
        assert(parts.take(j + 1).drop_last() =~= parts.take(j));
        lemma_interface_err_persists(parts, j + 1);
    } else {
        assert(parts.take(j) =~= parts);
    }
}

/// The identity and emptiness an interface translation gives the
/// definition outside its sections.
pub open spec fn interface_base(
    path: Seq<char>,
    cd: solidity::ContractDefinition,
    d: TranslatedDefinition,
) -> bool {
    &&& d.path@ == path
    &&& d.kind == cd.ty
    &&& d.name@ == cd.name@
    &&& d.inherits.deep_view() == cd.inherits.deep_view()
    &&& d.type_definitions@.len() == 0
    &&& d.constants@.len() == 0
    &&& d.structs@.len() == 0
    &&& d.configurable is None
    &&& d.storage is None
    &&& d.functions@.len() == 0
    &&& d.impls@.len() == 0
}

/// The sections an interface's parts yield: a lazily-created events enum
/// and errors enum holding one variant per declaration, and a
/// lazily-created ABI holding one signature per function declaration.
pub open spec fn interface_sections(
    cd: solidity::ContractDefinition,
    parts: Seq<solidity::ContractPart>,
    d: TranslatedDefinition,
) -> bool {
    &&& (match d.events_enum {
        None => event_definitions(parts).len() == 0,
        Some(e) => {
            let evs = event_definitions(parts);
            &&& evs.len() > 0
            &&& !e.is_public
            &&& e.name@ == cd.name@ + "Event"@
            &&& e.variants@.len() == evs.len()
            &&& forall|i: int|
                0 <= i < evs.len() ==> variant_matches(
                    evs[i].name@,
                    evs[i].fields@,
                    #[trigger] e.variants@[i],
                )
        },
    })
    &&& (match d.errors_enum {
        None => error_definitions(parts).len() == 0,
        Some(e) => {
            let ers = error_definitions(parts);
            &&& ers.len() > 0
            &&& !e.is_public
            &&& e.name@ == cd.name@ + "Error"@
            &&& e.variants@.len() == ers.len()
            &&& forall|i: int|
                0 <= i < ers.len() ==> variant_matches(
                    ers[i].name@,
                    ers[i].fields@,
                    #[trigger] e.variants@[i],
                )
        },
    })
    &&& (match d.abi {
        None => function_definitions(parts).len() == 0,
        Some(a) => {
            let fns = function_definitions(parts);
            &&& fns.len() > 0
            &&& a.name@ == cd.name@
            &&& a.inherits.deep_view() == cd.inherits.deep_view()
            &&& a.functions@.len() == fns.len()
            &&& forall|i: int|
                0 <= i < fns.len() ==> interface_fn_matches(fns[i], #[trigger] a.functions@[i])
        },
    })
}

/// The whole interface translation: identity, emptiness, and the
/// sections of every part.
pub open spec fn interface_translation(
    path: Seq<char>,
    cd: solidity::ContractDefinition,
    d: TranslatedDefinition,
) -> bool {
    interface_base(path, cd, d) && interface_sections(cd, cd.parts@, d)
}

/// Builds the target parameters of a function declaration.
fn lower_parameters(params: &Vec<solidity::VariableDeclaration>) -> (r: Vec<sway::Parameter>)
    ensures
        r@.len() == params@.len(),
        forall|i: int| 0 <= i < params@.len() ==> param_matches(params@[i], #[trigger] r@[i]),
{
    let mut r: Vec<sway::Parameter> = Vec::new();
    let n = params.len();
    let mut i: usize = 0;
    while i < n
        invariant
            n == params@.len(),
            0 <= i <= n,
            r@.len() == i,
            forall|j: int| 0 <= j < i ==> param_matches(params@[j], #[trigger] r@[j]),
        decreases n - i,
    {
        r.push(
            sway::Parameter {
                name: to_snake_case(params[i].name.as_str()),
                ty: translate_type_name(params[i].ty.as_str()),
            },
        );
        i += 1;
    }
    r
}

/// Builds the target return type of a function declaration.
fn lower_return_type(return_types: &Vec<String>) -> (r: Option<sway::TypeName>)
    ensures
        return_matches(return_types@, r),
{
    if return_types.len() == 0 {
        None
    } else if return_types.len() == 1 {
        Some(translate_type_name(return_types[0].as_str()))
    } else {
        Some(tuple_type_of(return_types))
    }
}

impl Project {
    /// Translates an interface definition: one ABI of rewritten function
    /// signatures, and a lazily-created events enum and errors enum whose
    /// variants carry synthesized tuples of the declared field types.
    /// Nested type, struct and enum declarations are left unhandled, not
    /// fatal; a variable or using-for declaration is the first error.
    pub fn translate_interface(
        &self,
        source_unit_path: &str,
        contract_definition: &solidity::ContractDefinition,
    ) -> (r: Result<TranslatedDefinition, Error>)
        ensures
            match r {
                Ok(d) => interface_first_error(contract_definition.parts@) is None
                    && interface_translation(source_unit_path@, *contract_definition, d),
                Err(e) => interface_first_error(contract_definition.parts@) == Some(e),
            },
    {
        let cd = contract_definition;
        let ghost parts = cd.parts@;
        let mut d = TranslatedDefinition::new(
            source_unit_path.to_owned(),
            cd.ty,
            cd.name.clone(),
            crate::translate::clone_strings(&cd.inherits),
        );
        let n = cd.parts.len();
        let mut j: usize = 0;
        proof {
            assert(parts.take(0int) =~= Seq::<solidity::ContractPart>::empty());
        }
        while j < n
            invariant
                cd == contract_definition,
                parts == cd.parts@,
                n == parts.len(),
                0 <= j <= n,
                interface_base(source_unit_path@, *cd, d),
                interface_sections(*cd, parts.take(j as int), d),
                interface_first_error(parts.take(j as int)) is None,
            decreases n - j,
        {
            let ghost jj = j as int;
            proof {
                assert(parts.take(jj + 1).drop_last() =~= parts.take(jj));
                assert(parts.take(jj + 1).last() == parts[jj]);
            }
            match &cd.parts[j] {
                solidity::ContractPart::TypeDefinition(_) => {},
                solidity::ContractPart::StructDefinition(_) => {},
                solidity::ContractPart::EnumDefinition(_) => {},
                solidity::ContractPart::EventDefinition(ev) => {
                    let variant = sway::EnumVariant {
                        name: ev.name.clone(),
                        ty: tuple_type_of(&ev.fields),
                    };
                    let e = d.get_events_enum();
                    e.variants.push(variant);
                    proof {
                        assert(event_definitions(parts.take(jj + 1)) =~= event_definitions(
                            parts.take(jj),
                        ).push(*ev));
                    }
                },
                solidity::ContractPart::ErrorDefinition(er) => {
                    let variant = sway::EnumVariant {
                        name: er.name.clone(),
                        ty: tuple_type_of(&er.fields),
                    };
                    let e = d.get_errors_enum();
                    e.variants.push(variant);
                    proof {
                        assert(error_definitions(parts.take(jj + 1)) =~= error_definitions(
                            parts.take(jj),
                        ).push(*er));
                    }
                },
                solidity::ContractPart::FunctionDefinition(f) => {
                    let func = sway::Function {
                        is_public: false,
                        name: to_snake_case(f.name.as_str()),
                        parameters: lower_parameters(&f.params),
                        return_type: lower_return_type(&f.return_types),
                        body: None,
                    };
                    let a = d.get_abi();
                    a.functions.push(func);
                    proof {
                        assert(function_definitions(parts.take(jj + 1)) =~= function_definitions(
                            parts.take(jj),
                        ).push(*f));
                    }
                },
                solidity::ContractPart::VariableDefinition(_) => {
                    proof {
                        lemma_interface_err_persists(parts, jj + 1);
                    }
                    return Err(
                        Error::UnsupportedConstruct(UnsupportedConstruct::InterfaceVariable),
                    );
                },
                solidity::ContractPart::Using => {
                    proof {
                        lemma_interface_err_persists(parts, jj + 1);
                    }
                    return Err(Error::UnsupportedConstruct(UnsupportedConstruct::InterfaceUsing));
                },
                solidity::ContractPart::Annotation => {},
                solidity::ContractPart::StraySemicolon => {},
            }
            j += 1;
        }
        proof {
            assert(parts.take(n as int) =~= parts);
        }
        Ok(d)
    }
}

/// The type aliases among the parts, in order.
pub open spec fn type_alias_definitions(parts: Seq<solidity::ContractPart>) -> Seq<
    solidity::TypeDefinition,
>
    decreases parts.len(),
{
    if parts.len() == 0 {
        Seq::empty()
    } else {
        type_alias_definitions(parts.drop_last()) + (match parts.last() {
            solidity::ContractPart::TypeDefinition(td) => seq![td],
            _ => Seq::empty(),
        })
    }
}

/// The struct declarations among the parts, in order.
pub open spec fn struct_definitions(parts: Seq<solidity::ContractPart>) -> Seq<
    solidity::StructDefinition,
>
    decreases parts.len(),
{
    if parts.len() == 0 {
        Seq::empty()
    } else {
        struct_definitions(parts.drop_last()) + (match parts.last() {
            solidity::ContractPart::StructDefinition(sd) => seq![sd],
            _ => Seq::empty(),
        })
    }
}

/// The constant state variables among the parts, in order.
pub open spec fn constant_variables(parts: Seq<solidity::ContractPart>) -> Seq<
    solidity::VariableDefinition,
>
    decreases parts.len(),
{
    if parts.len() == 0 {
        Seq::empty()
    } else {
        constant_variables(parts.drop_last()) + (match parts.last() {
            solidity::ContractPart::VariableDefinition(v) => if v.is_constant {
                seq![v]
            } else {
                Seq::empty()
            },
            _ => Seq::empty(),
        })
    }
}

/// The plain (neither constant nor immutable) state variables among the
/// parts, in order: those that become storage fields.
pub open spec fn storage_variables(parts: Seq<solidity::ContractPart>) -> Seq<
    solidity::VariableDefinition,
>
    decreases parts.len(),
{
    if parts.len() == 0 {
        Seq::empty()
    } else {
        storage_variables(parts.drop_last()) + (match parts.last() {
            solidity::ContractPart::VariableDefinition(v) => if !v.is_constant
                && !v.is_immutable {
                seq![v]
            } else {
                Seq::empty()
            },
            _ => Seq::empty(),
        })
    }
}

/// Whether a function member is promoted to the externally callable ABI:
/// it is no modifier, and is the constructor or marked public/external.
pub open spec fn is_promoted(f: solidity::FunctionDefinition) -> bool {
    f.ty != solidity::FunctionTy::Modifier && (f.is_public || f.ty
        == solidity::FunctionTy::Constructor)
}

/// The promoted function members among the parts, in order.
pub open spec fn promoted_functions(parts: Seq<solidity::ContractPart>) -> Seq<
    solidity::FunctionDefinition,
>
    decreases parts.len(),
{
    if parts.len() == 0 {
        Seq::empty()
    } else {
        promoted_functions(parts.drop_last()) + (match parts.last() {
            solidity::ContractPart::FunctionDefinition(f) => if is_promoted(f) {
                seq![f]
            } else {
                Seq::empty()
            },
            _ => Seq::empty(),
        })
    }
}

/// The construct a contract part leaves unsupported, if any: an
/// immutable state variable, whose policy is unresolved.
pub open spec fn contract_part_error(p: solidity::ContractPart) -> Option<Error> {
    match p {
        solidity::ContractPart::VariableDefinition(v) => if !v.is_constant && v.is_immutable {
            Some(Error::UnsupportedConstruct(UnsupportedConstruct::ImmutableVariable))
        } else {
            None
        },
        _ => None,
    }
}

/// The first unsupported construct among a contract's parts, if any.
pub open spec fn contract_first_error(parts: Seq<solidity::ContractPart>) -> Option<Error>
    decreases parts.len(),
{
    if parts.len() == 0 {
        None
    } else {
        match contract_first_error(parts.drop_last()) {
            Some(e) => Some(e),
            None => contract_part_error(parts.last()),
        }
    }
}

proof fn lemma_contract_err_persists(parts: Seq<solidity::ContractPart>, j: int)
    requires
        0 <= j <= parts.len(),
        contract_first_error(parts.take(j)) is Some,
    ensures
        contract_first_error(parts) == contract_first_error(parts.take(j)),
    decreases parts.len() - j,
{
    if j < parts.len() {
        assert(parts.take(j + 1).drop_last() =~= parts.take(j));
        lemma_contract_err_persists(parts, j + 1);
    } else {
        assert(parts.take(j) =~= parts);
    }
}

/// The target type alias a source type alias yields: public, same name,
/// mapped underlying type.
pub open spec fn type_alias_matches(
    td: solidity::TypeDefinition,
    st: sway::TypeDefinition,
) -> bool {
    &&& st.is_public
    &&& st.name.name@ == td.name@
    &&& match st.underlying_type {
        Some(t) => t.name@ == map_type_name(td.ty@),
        None => false,
    }
}

/// The target struct a source struct yields: externally visible, same
/// name, fields renamed to snake_case and type-mapped.
pub open spec fn struct_matches(sd: solidity::StructDefinition, ss: sway::Struct) -> bool {
    &&& ss.is_public
    &&& ss.name@ == sd.name@
    &&& ss.fields@.len() == sd.fields@.len()
    &&& forall|i: int|
        0 <= i < sd.fields@.len() ==> {
            let sf = #[trigger] ss.fields@[i];
            sf.is_public && sf.name@ == snake_case_of(sd.fields@[i].name@) && sf.ty.name@
                == map_type_name(sd.fields@[i].ty@)
        }
}

/// The module-level constant a constant state variable yields: visible
/// exactly when the source marks it public/external, name rewritten to
/// UPPER_SNAKE_CASE, type mapped, initializer a placeholder.
pub open spec fn constant_matches(v: solidity::VariableDefinition, c: sway::Constant) -> bool {
    &&& c.is_public == v.is_public
    &&& c.name@ == upper_snake_case_of(v.name@)
    &&& c.ty.name@ == map_type_name(v.ty@)
    &&& c.value == Some(sway::Expression::Placeholder)
}

/// The storage field a plain state variable yields: name rewritten to
/// snake_case, type mapped, initializer a placeholder.
pub open spec fn storage_field_matches(
    v: solidity::VariableDefinition,
    f: sway::StorageField,
) -> bool {
    &&& f.name@ == snake_case_of(v.name@)
    &&& f.ty.name@ == map_type_name(v.ty@)
    &&& f.value == sway::Expression::Placeholder
}

/// The name a promoted function gets: the one fixed reserved name for
/// the constructor, the snake_case rewriting otherwise.
pub open spec fn promoted_name(f: solidity::FunctionDefinition) -> Seq<char> {
    if f.ty == solidity::FunctionTy::Constructor {
        "constructor"@
    } else {
        snake_case_of(f.name@)
    }
}

/// The ABI signature entry a promoted function yields. Parameter and
/// return lowering are stubbed pending statement translation.
pub open spec fn abi_fn_matches(f: solidity::FunctionDefinition, sf: sway::Function) -> bool {
    &&& !sf.is_public
    &&& sf.name@ == promoted_name(f)
    &&& sf.parameters@.len() == 0
    &&& sf.return_type is None
    &&& sf.body is None
}

/// The implementation-block entry a promoted function yields: the same
/// signature, with a placeholder body.
pub open spec fn impl_fn_matches(f: solidity::FunctionDefinition, sf: sway::Function) -> bool {
    &&& !sf.is_public
    &&& sf.name@ == promoted_name(f)
    &&& sf.parameters@.len() == 0
    &&& sf.return_type is None
    &&& match sf.body {
        Some(b) => b.statements@.len() == 0 && b.final_expr == Some(sway::Expression::Placeholder),
        None => false,
    }
}

/// The identity and emptiness a contract translation gives the
/// definition outside its sections.
pub open spec fn contract_base(
    path: Seq<char>,
    cd: solidity::ContractDefinition,
    d: TranslatedDefinition,
) -> bool {
    &&& d.path@ == path
    &&& d.kind == cd.ty
    &&& d.name@ == cd.name@
    &&& d.inherits.deep_view() == cd.inherits.deep_view()
    &&& d.events_enum is None
    &&& d.errors_enum is None
    &&& d.configurable is None
    &&& d.functions@.len() == 0
}

/// The sections a contract's parts yield: type aliases, constants,
/// structs, a lazily-created storage block, and a lazily-created ABI
/// whose promoted functions also stand, with placeholder bodies, in the
/// single implementation block for the `Contract` marker type.
pub open spec fn contract_sections(
    cd: solidity::ContractDefinition,
    parts: Seq<solidity::ContractPart>,
    d: TranslatedDefinition,
) -> bool {
    let tds = type_alias_definitions(parts);
    let cvs = constant_variables(parts);
    let sds = struct_definitions(parts);
    let svs = storage_variables(parts);
    let pfs = promoted_functions(parts);
    &&& d.type_definitions@.len() == tds.len()
    &&& forall|i: int|
        0 <= i < tds.len() ==> type_alias_matches(tds[i], #[trigger] d.type_definitions@[i])
    &&& d.constants@.len() == cvs.len()
    &&& forall|i: int| 0 <= i < cvs.len() ==> constant_matches(cvs[i], #[trigger] d.constants@[i])
    &&& d.structs@.len() == sds.len()
    &&& forall|i: int| 0 <= i < sds.len() ==> struct_matches(sds[i], #[trigger] d.structs@[i])
    &&& (match d.storage {
        None => svs.len() == 0,
        Some(st) => svs.len() > 0 && st.fields@.len() == svs.len() && forall|i: int|
            0 <= i < svs.len() ==> storage_field_matches(svs[i], #[trigger] st.fields@[i]),
    })
    &&& (match d.abi {
        None => pfs.len() == 0,
        Some(a) => {
            &&& pfs.len() > 0
            &&& a.name@ == cd.name@
            &&& a.inherits.deep_view() == cd.inherits.deep_view()
            &&& a.functions@.len() == pfs.len()
            &&& forall|i: int|
                0 <= i < pfs.len() ==> abi_fn_matches(pfs[i], #[trigger] a.functions@[i])
        },
    })
    &&& (if pfs.len() == 0 {
        d.impls@.len() == 0
    } else {
        &&& d.impls@.len() == 1
        &&& is_contract_impl(cd.name@, d.impls@[0])
        &&& d.impls@[0].items@.len() == pfs.len()
        &&& forall|i: int|
            0 <= i < pfs.len() ==> match #[trigger] d.impls@[0].items@[i] {
                sway::ImplItem::Function(sf) => impl_fn_matches(pfs[i], sf),
            }
    })
}

/// The whole contract translation: identity, emptiness, and the sections
/// of every part.
pub open spec fn contract_translation(
    path: Seq<char>,
    cd: solidity::ContractDefinition,
    d: TranslatedDefinition,
) -> bool {
    contract_base(path, cd, d) && contract_sections(cd, cd.parts@, d)
}

/// Builds the target fields of a struct declaration.
fn lower_struct_fields(fields: &Vec<solidity::VariableDeclaration>) -> (r: Vec<sway::StructField>)
    ensures
        r@.len() == fields@.len(),
        forall|i: int|
            0 <= i < fields@.len() ==> {
                let sf = #[trigger] r@[i];
                sf.is_public && sf.name@ == snake_case_of(fields@[i].name@) && sf.ty.name@
                    == map_type_name(fields@[i].ty@)
            },
{
    let mut r: Vec<sway::StructField> = Vec::new();
    let n = fields.len();
    let mut i: usize = 0;
    while i < n
        invariant
            n == fields@.len(),
            0 <= i <= n,
            r@.len() == i,
            forall|j: int|
                0 <= j < i ==> {
                    let sf = #[trigger] r@[j];
                    sf.is_public && sf.name@ == snake_case_of(fields@[j].name@) && sf.ty.name@
                        == map_type_name(fields@[j].ty@)
                },
        decreases n - i,
    {
        r.push(
            sway::StructField {
                is_public: true,
                name: to_snake_case(fields[i].name.as_str()),
                ty: translate_type_name(fields[i].ty.as_str()),
            },
        );
        i += 1;
    }
    r
}

impl Project {
    /// Translates a contract or abstract-contract definition: structs,
    /// type aliases, constants, a lazily-created storage block, and, for
    /// every promoted function, one ABI signature and one
    /// placeholder-bodied entry in the single implementation block for
    /// the `Contract` marker type. An immutable state variable is the
    /// first error; events, enums, errors, using-for directives and
    /// non-promoted functions are recognized gaps, not lowered.
    pub fn translate_contract_definition(
        &self,
        source_unit_path: &str,
        contract_definition: &solidity::ContractDefinition,
    ) -> (r: Result<TranslatedDefinition, Error>)
        requires
            contract_definition.ty == solidity::ContractTy::Contract || contract_definition.ty
                == solidity::ContractTy::Abstract,
        ensures
            match r {
                Ok(d) => contract_first_error(contract_definition.parts@) is None
                    && contract_translation(source_unit_path@, *contract_definition, d),
                Err(e) => contract_first_error(contract_definition.parts@) == Some(e),
            },
    {
        let cd = contract_definition;
        let ghost parts = cd.parts@;
        let mut d = TranslatedDefinition::new(
            source_unit_path.to_owned(),
            cd.ty,
            cd.name.clone(),
            crate::translate::clone_strings(&cd.inherits),
        );
        let n = cd.parts.len();
        let mut j: usize = 0;
        proof {
            assert(parts.take(0int) =~= Seq::<solidity::ContractPart>::empty());
        }
        while j < n
            invariant
                cd == contract_definition,
                parts == cd.parts@,
                n == parts.len(),
                0 <= j <= n,
                contract_base(source_unit_path@, *cd, d),
                contract_sections(*cd, parts.take(j as int), d),
                contract_first_error(parts.take(j as int)) is None,
            decreases n - j,
        {
            let ghost jj = j as int;
            proof {
                assert(parts.take(jj + 1).drop_last() =~= parts.take(jj));
                assert(parts.take(jj + 1).last() == parts[jj]);
            }
            match &cd.parts[j] {
                solidity::ContractPart::StructDefinition(sd) => {
                    d.structs.push(
                        sway::Struct {
                            is_public: true,
                            name: sd.name.clone(),
                            fields: lower_struct_fields(&sd.fields),
                        },
                    );
                },
                solidity::ContractPart::EventDefinition(_) => {},
                solidity::ContractPart::EnumDefinition(_) => {},
                solidity::ContractPart::ErrorDefinition(_) => {},
                solidity::ContractPart::VariableDefinition(v) => {
                    if v.is_constant {
                        d.constants.push(
                            sway::Constant {
                                is_public: v.is_public,
                                name: to_upper_snake_case(v.name.as_str()),
                                ty: translate_type_name(v.ty.as_str()),
                                value: Some(sway::Expression::Placeholder),
                            },
                        );
                    } else if v.is_immutable {
                        proof {
                            lemma_contract_err_persists(parts, jj + 1);
                        }
                        return Err(
                            Error::UnsupportedConstruct(UnsupportedConstruct::ImmutableVariable),
                        );
                    } else {
                        let field = sway::StorageField {
                            name: to_snake_case(v.name.as_str()),
                            ty: translate_type_name(v.ty.as_str()),
                            value: sway::Expression::Placeholder,
                        };
                        let st = d.get_storage();
                        st.fields.push(field);
                        proof {
                            assert(storage_variables(parts.take(jj + 1)) =~= storage_variables(
                                parts.take(jj),
                            ).push(*v));
                        }
                    }
                },
                solidity::ContractPart::FunctionDefinition(f) => {
                    let is_constructor = matches!(f.ty, solidity::FunctionTy::Constructor);
                    let is_modifier = matches!(f.ty, solidity::FunctionTy::Modifier);
                    if !is_modifier && (f.is_public || is_constructor) {
                        let abi_name = if is_constructor {
                            "constructor".to_owned()
                        } else {
                            to_snake_case(f.name.as_str())
                        };
                        let impl_name = abi_name.clone();
                        let a = d.get_abi();
                        a.functions.push(
                            sway::Function {
                                is_public: false,
                                name: abi_name,
                                parameters: Vec::new(),
                                return_type: None,
                                body: None,
                            },
                        );
                        let body_fn = sway::Function {
                            is_public: false,
                            name: impl_name,
                            parameters: Vec::new(),
                            return_type: None,
                            body: Some(
                                sway::Block {
                                    statements: Vec::new(),
                                    final_expr: Some(sway::Expression::Placeholder),
                                },
                            ),
                        };
                        let ci = d.get_contract_impl();
                        ci.items.push(sway::ImplItem::Function(body_fn));
                        proof {
                            assert(promoted_functions(parts.take(jj + 1)) =~= promoted_functions(
                                parts.take(jj),
                            ).push(*f));
                        }
                    }
                },
                solidity::ContractPart::TypeDefinition(td) => {
                    d.type_definitions.push(
                        sway::TypeDefinition {
                            is_public: true,
                            name: sway::TypeName { name: td.name.clone() },
                            underlying_type: Some(translate_type_name(td.ty.as_str())),
                        },
                    );
                },
                solidity::ContractPart::Annotation => {},
                solidity::ContractPart::Using => {},
                solidity::ContractPart::StraySemicolon => {},
            }
            j += 1;
        }
        proof {
            assert(parts.take(n as int) =~= parts);
        }
        Ok(d)
    }

    /// Translating a library is deferred: the target language has no
    /// analogue of its implicit static linking, so every library is an
    /// unsupported construct.
    pub fn translate_library(
        &self,
        _source_unit_path: &str,
        _contract_definition: &solidity::ContractDefinition,
    ) -> (r: Result<TranslatedDefinition, Error>)
        ensures
            r == Err::<TranslatedDefinition, Error>(
                Error::UnsupportedConstruct(UnsupportedConstruct::Library),
            ),
    {
        Err(Error::UnsupportedConstruct(UnsupportedConstruct::Library))
    }
}

/// Law: a constant state variable becomes a module-level constant that
/// is externally visible exactly when the source marks the variable
/// public or external.
pub proof fn lemma_state_variable_visibility(
    path: Seq<char>,
    cd: solidity::ContractDefinition,
    d: TranslatedDefinition,
    k: int,
)
    requires
        contract_translation(path, cd, d),
        0 <= k < constant_variables(cd.parts@).len(),
    ensures
        d.constants@[k].is_public == constant_variables(cd.parts@)[k].is_public,
{
}

/// Law: a state variable is classified by exactly one attribute check:
/// a constant one becomes one more module-level constant and no storage
/// field, a plain one becomes one more storage field and no constant.
pub proof fn lemma_state_variable_classification(
    parts: Seq<solidity::ContractPart>,
    v: solidity::VariableDefinition,
)
    ensures
        v.is_constant ==> constant_variables(
            parts.push(solidity::ContractPart::VariableDefinition(v)),
        ) == constant_variables(parts).push(v) && storage_variables(
            parts.push(solidity::ContractPart::VariableDefinition(v)),
        ) == storage_variables(parts),
        !v.is_constant && !v.is_immutable ==> storage_variables(
            parts.push(solidity::ContractPart::VariableDefinition(v)),
        ) == storage_variables(parts).push(v) && constant_variables(
            parts.push(solidity::ContractPart::VariableDefinition(v)),
        ) == constant_variables(parts),
{
    let p2 = parts.push(solidity::ContractPart::VariableDefinition(v));
    assert(p2.drop_last() =~= parts);
    if v.is_constant {
        assert(constant_variables(p2) =~= constant_variables(parts).push(v));
        assert(storage_variables(p2) =~= storage_variables(parts));
    } else if !v.is_immutable {
        assert(storage_variables(p2) =~= storage_variables(parts).push(v));
        assert(constant_variables(p2) =~= constant_variables(parts));
    }
}

/// Law: a function marked public/external, or the constructor, is
/// promoted to the ABI; a private or internal non-constructor function,
/// or a modifier, adds nothing to it.
pub proof fn lemma_function_promotion(
    parts: Seq<solidity::ContractPart>,
    f: solidity::FunctionDefinition,
)
    ensures
        is_promoted(f) <==> f.ty != solidity::FunctionTy::Modifier && (f.is_public || f.ty
            == solidity::FunctionTy::Constructor),
        is_promoted(f) ==> promoted_functions(
            parts.push(solidity::ContractPart::FunctionDefinition(f)),
        ) == promoted_functions(parts).push(f),
        !is_promoted(f) ==> promoted_functions(
            parts.push(solidity::ContractPart::FunctionDefinition(f)),
        ) == promoted_functions(parts),
{
    let p2 = parts.push(solidity::ContractPart::FunctionDefinition(f));
    assert(p2.drop_last() =~= parts);
    if is_promoted(f) {
        assert(promoted_functions(p2) =~= promoted_functions(parts).push(f));
    } else {
        assert(promoted_functions(p2) =~= promoted_functions(parts));
    }
}

/// Law: every promoted function stands in the ABI at its position, under
/// its rewritten name; the ABI holds exactly the promoted functions.
pub proof fn lemma_promoted_in_abi(
    path: Seq<char>,
    cd: solidity::ContractDefinition,
    d: TranslatedDefinition,
    k: int,
)
    requires
        contract_translation(path, cd, d),
        0 <= k < promoted_functions(cd.parts@).len(),
    ensures
        d.abi is Some,
        d.abi.unwrap().functions@.len() == promoted_functions(cd.parts@).len(),
        abi_fn_matches(promoted_functions(cd.parts@)[k], d.abi.unwrap().functions@[k]),
{
}

/// The per-kind translation a contract-like definition must satisfy.
pub open spec fn definition_translation(
    path: Seq<char>,
    cd: solidity::ContractDefinition,
    d: TranslatedDefinition,
) -> bool {
    match cd.ty {
        solidity::ContractTy::Interface => interface_translation(path, cd, d),
        solidity::ContractTy::Contract => contract_translation(path, cd, d),
        solidity::ContractTy::Abstract => contract_translation(path, cd, d),
        solidity::ContractTy::Library => false,
    }
}

/// The contract-like definitions among a unit's parts, each paired with
/// the unit's path.
pub open spec fn unit_contract_defs(path: String, parts: Seq<solidity::SourceUnitPart>) -> Seq<
    (String, solidity::ContractDefinition),
>
    decreases parts.len(),
{
    if parts.len() == 0 {
        Seq::empty()
    } else {
        unit_contract_defs(path, parts.drop_last()) + (match parts.last() {
            solidity::SourceUnitPart::ContractDefinition(cd) => seq![(path, cd)],
            _ => Seq::empty(),
        })
    }
}

/// The error a top-level item yields: free declarations are unsupported,
/// a library is unsupported, and a contract-like definition fails with
/// its own first error.
pub open spec fn source_unit_part_error(p: solidity::SourceUnitPart) -> Option<Error> {
    match p {
        solidity::SourceUnitPart::PragmaDirective => None,
        solidity::SourceUnitPart::ImportDirective(_) => None,
        solidity::SourceUnitPart::ContractDefinition(cd) => match cd.ty {
            solidity::ContractTy::Interface => interface_first_error(cd.parts@),
            solidity::ContractTy::Library => Some(
                Error::UnsupportedConstruct(UnsupportedConstruct::Library),
            ),
            solidity::ContractTy::Contract => contract_first_error(cd.parts@),
            solidity::ContractTy::Abstract => contract_first_error(cd.parts@),
        },
        solidity::SourceUnitPart::EnumDefinition => Some(
            Error::UnsupportedConstruct(UnsupportedConstruct::ToplevelEnum),
        ),
        solidity::SourceUnitPart::StructDefinition => Some(
            Error::UnsupportedConstruct(UnsupportedConstruct::ToplevelStruct),
        ),
        solidity::SourceUnitPart::EventDefinition => Some(
            Error::UnsupportedConstruct(UnsupportedConstruct::ToplevelEvent),
        ),
        solidity::SourceUnitPart::ErrorDefinition => Some(
            Error::UnsupportedConstruct(UnsupportedConstruct::ToplevelError),
        ),
        solidity::SourceUnitPart::FunctionDefinition => Some(
            Error::UnsupportedConstruct(UnsupportedConstruct::ToplevelFunction),
        ),
        solidity::SourceUnitPart::VariableDefinition => Some(
            Error::UnsupportedConstruct(UnsupportedConstruct::ToplevelVariable),
        ),
        solidity::SourceUnitPart::TypeDefinition => Some(
            Error::UnsupportedConstruct(UnsupportedConstruct::ToplevelTypeDefinition),
        ),
        solidity::SourceUnitPart::Annotation => None,
        solidity::SourceUnitPart::Using => Some(
            Error::UnsupportedConstruct(UnsupportedConstruct::ToplevelUsing),
        ),
        solidity::SourceUnitPart::StraySemicolon => None,
    }
}

/// The first error among a unit's parts, if any.
pub open spec fn unit_first_error(parts: Seq<solidity::SourceUnitPart>) -> Option<Error>
    decreases parts.len(),
{
    if parts.len() == 0 {
        None
    } else {
        match unit_first_error(parts.drop_last()) {
            Some(e) => Some(e),
            None => source_unit_part_error(parts.last()),
        }
    }
}

proof fn lemma_unit_err_persists(parts: Seq<solidity::SourceUnitPart>, j: int)
    requires
        0 <= j <= parts.len(),
        unit_first_error(parts.take(j)) is Some,
    ensures
        unit_first_error(parts) == unit_first_error(parts.take(j)),
    decreases parts.len() - j,
{
    if j < parts.len() {
        assert(parts.take(j + 1).drop_last() =~= parts.take(j));
        lemma_unit_err_persists(parts, j + 1);
    } else {
        assert(parts.take(j) =~= parts);
    }
}

/// The first error the queue yields: a queued path with no registered
/// unit, or the first error of a queued unit, in queue order.
pub open spec fn queue_first_error(
    units: Seq<(String, solidity::SourceUnit)>,
    queue: Seq<String>,
) -> Option<Error>
    decreases queue.len(),
{
    if queue.len() == 0 {
        None
    } else {
        match queue_first_error(units, queue.drop_last()) {
            Some(e) => Some(e),
            None => {
                let p = queue.last();
                if !crate::table::has_key(units, p@) {
                    Some(Error::MissingSourceUnit(p))
                } else {
                    unit_first_error(crate::table::value_of(units, p@).parts@)
                }
            },
        }
    }
}

/// The contract-like definitions the queue yields, in queue order, each
/// paired with its unit's path.
pub open spec fn queue_contract_defs(
    units: Seq<(String, solidity::SourceUnit)>,
    queue: Seq<String>,
) -> Seq<(String, solidity::ContractDefinition)>
    decreases queue.len(),
{
    if queue.len() == 0 {
        Seq::empty()
    } else {
        queue_contract_defs(units, queue.drop_last()) + (if crate::table::has_key(
            units,
            queue.last()@,
        ) {
            unit_contract_defs(
                queue.last(),
                crate::table::value_of(units, queue.last()@).parts@,
            )
        } else {
            Seq::empty()
        })
    }
}

proof fn lemma_queue_err_persists(
    units: Seq<(String, solidity::SourceUnit)>,
    queue: Seq<String>,
    j: int,
)
    requires
        0 <= j <= queue.len(),
        queue_first_error(units, queue.take(j)) is Some,
    ensures
        queue_first_error(units, queue) == queue_first_error(units, queue.take(j)),
    decreases queue.len() - j,
{
    if j < queue.len() {
        assert(queue.take(j + 1).drop_last() =~= queue.take(j));
        lemma_queue_err_persists(units, queue, j + 1);
    } else {
        assert(queue.take(j) =~= queue);
    }
}

proof fn lemma_queue_err_at(
    units: Seq<(String, solidity::SourceUnit)>,
    queue: Seq<String>,
    qq: int,
    e: Error,
)
    requires
        0 <= qq < queue.len(),
        queue_first_error(units, queue.take(qq)) is None,
        crate::table::has_key(units, queue[qq]@),
        unit_first_error(crate::table::value_of(units, queue[qq]@).parts@) == Some(e),
    ensures
        queue_first_error(units, queue) == Some(e),
{
    assert(queue.take(qq + 1).drop_last() =~= queue.take(qq));
    assert(queue.take(qq + 1).last() == queue[qq]);
    lemma_queue_err_persists(units, queue, qq + 1);
}

impl Project {
    /// Drains the conversion queue: every part of every queued unit is
    /// dispatched by its category, and each interface, contract or
    /// abstract contract yields one translated definition, in queue
    /// order. The first unsupported construct, or a queued path with no
    /// registered unit, aborts the whole batch: no partial result is
    /// returned.
    pub fn translate(&self, queue: &Vec<String>) -> (r: Result<Vec<TranslatedDefinition>, Error>)
        ensures
            match r {
                Ok(defs) => {
                    let pairs = queue_contract_defs(self.solidity_source_units@, queue@);
                    &&& queue_first_error(self.solidity_source_units@, queue@) is None
                    &&& defs@.len() == pairs.len()
                    &&& forall|k: int|
                        0 <= k < pairs.len() ==> definition_translation(
                            pairs[k].0@,
                            pairs[k].1,
                            #[trigger] defs@[k],
                        )
                },
                Err(e) => queue_first_error(self.solidity_source_units@, queue@) == Some(e),
            },
    {
        let ghost units = self.solidity_source_units@;
        let ghost qv = queue@;
        let mut defs: Vec<TranslatedDefinition> = Vec::new();
        let qlen = queue.len();
        let mut qi: usize = 0;
        proof {
            assert(qv.take(0int) =~= Seq::<String>::empty());
        }
        while qi < qlen
            invariant
                units == self.solidity_source_units@,
                qv == queue@,
                qlen == qv.len(),
                0 <= qi <= qlen,
                queue_first_error(units, qv.take(qi as int)) is None,
                defs@.len() == queue_contract_defs(units, qv.take(qi as int)).len(),
                forall|k: int|
                    0 <= k < defs@.len() ==> definition_translation(
                        queue_contract_defs(units, qv.take(qi as int))[k].0@,
                        queue_contract_defs(units, qv.take(qi as int))[k].1,
                        #[trigger] defs@[k],
                    ),
            decreases qlen - qi,
        {
            let ghost qq = qi as int;
            proof {
                assert(qv.take(qq + 1).drop_last() =~= qv.take(qq));
                assert(qv.take(qq + 1).last() == qv[qq]);
            }
            let path = &queue[qi];
            match self.solidity_source_units.get(path.as_str()) {
                None => {
                    proof {
                        lemma_queue_err_persists(units, qv, qq + 1);
                    }
                    return Err(Error::MissingSourceUnit(path.clone()));
                },
                Some(unit) => {
                    let ghost parts = unit.parts@;
                    let ghost defs0 = defs@;
                    let ghost pre = queue_contract_defs(units, qv.take(qq));
                    let plen = unit.parts.len();
                    let mut pi: usize = 0;
                    proof {
                        assert(parts.take(0int) =~= Seq::<solidity::SourceUnitPart>::empty());
                        assert(pre + unit_contract_defs(qv[qq], parts.take(0int)) =~= pre);
                    }
                    while pi < plen
                        invariant
                            units == self.solidity_source_units@,
                            qv == queue@,
                            qq == qi as int,
                            0 <= qi < qv.len(),
                            *path == qv[qq],
                            crate::table::has_key(units, qv[qq]@),
                            crate::table::value_of(units, qv[qq]@) == *unit,
                            parts == unit.parts@,
                            plen == parts.len(),
                            0 <= pi <= plen,
                            queue_first_error(units, qv.take(qq)) is None,
                            unit_first_error(parts.take(pi as int)) is None,
                            pre == queue_contract_defs(units, qv.take(qq)),
                            defs0.len() == pre.len(),
                            forall|k: int|
                                0 <= k < defs0.len() ==> definition_translation(
                                    pre[k].0@,
                                    pre[k].1,
                                    #[trigger] defs0[k],
                                ),
                            defs@.len() == defs0.len() + unit_contract_defs(
                                qv[qq],
                                parts.take(pi as int),
                            ).len(),
                            forall|k: int| 0 <= k < defs0.len() ==> defs@[k] == defs0[k],
                            forall|k: int|
                                defs0.len() <= k < defs@.len() ==> definition_translation(
                                    unit_contract_defs(qv[qq], parts.take(pi as int))[k
                                        - defs0.len()].0@,
                                    unit_contract_defs(qv[qq], parts.take(pi as int))[k
                                        - defs0.len()].1,
                                    #[trigger] defs@[k],
                                ),
                        decreases plen - pi,
                    {
                        let ghost pp = pi as int;
                        proof {
                            assert(parts.take(pp + 1).drop_last() =~= parts.take(pp));
                            assert(parts.take(pp + 1).last() == parts[pp]);
                        }
                        match &unit.parts[pi] {
                            solidity::SourceUnitPart::PragmaDirective => {},
                            solidity::SourceUnitPart::ImportDirective(_) => {},
                            solidity::SourceUnitPart::ContractDefinition(cd) => {
                                let lowered = if matches!(cd.ty, solidity::ContractTy::Interface) {
                                    self.translate_interface(path.as_str(), cd)
                                } else if matches!(cd.ty, solidity::ContractTy::Library) {
                                    self.translate_library(path.as_str(), cd)
                                } else {
                                    self.translate_contract_definition(path.as_str(), cd)
                                };
                                match lowered {
                                    Ok(d) => {
                                        defs.push(d);
                                        proof {
                                            assert(unit_contract_defs(qv[qq], parts.take(pp + 1))
                                                =~= unit_contract_defs(
                                                qv[qq],
                                                parts.take(pp),
                                            ).push((qv[qq], *cd)));
                                        }
                                    },
                                    Err(e) => {
                                        proof {
                                            lemma_unit_err_persists(parts, pp + 1);
                                            lemma_queue_err_at(units, qv, qq, e);
                                        }
                                        return Err(e);
                                    },
                                }
                            },
                            solidity::SourceUnitPart::EnumDefinition => {
                                proof {
                                    lemma_unit_err_persists(parts, pp + 1);
                                    lemma_queue_err_at(
                                        units,
                                        qv,
                                        qq,
                                        unit_first_error(parts).unwrap(),
                                    );
                                }
                                return Err(
                                    Error::UnsupportedConstruct(UnsupportedConstruct::ToplevelEnum),
                                );
                            },
                            solidity::SourceUnitPart::StructDefinition => {
                                proof {
                                    lemma_unit_err_persists(parts, pp + 1);
                                    lemma_queue_err_at(
                                        units,
                                        qv,
                                        qq,
                                        unit_first_error(parts).unwrap(),
                                    );
                                }
                                return Err(
                                    Error::UnsupportedConstruct(
                                        UnsupportedConstruct::ToplevelStruct,
                                    ),
                                );
                            },
                            solidity::SourceUnitPart::EventDefinition => {
                                proof {
                                    lemma_unit_err_persists(parts, pp + 1);
                                    lemma_queue_err_at(
                                        units,
                                        qv,
                                        qq,
                                        unit_first_error(parts).unwrap(),
                                    );
                                }
                                return Err(
                                    Error::UnsupportedConstruct(
                                        UnsupportedConstruct::ToplevelEvent,
                                    ),
                                );
                            },
                            solidity::SourceUnitPart::ErrorDefinition => {
                                proof {
                                    lemma_unit_err_persists(parts, pp + 1);
                                    lemma_queue_err_at(
                                        units,
                                        qv,
                                        qq,
                                        unit_first_error(parts).unwrap(),
                                    );
                                }
                                return Err(
                                    Error::UnsupportedConstruct(
                                        UnsupportedConstruct::ToplevelError,
                                    ),
                                );
                            },
                            solidity::SourceUnitPart::FunctionDefinition => {
                                proof {
                                    lemma_unit_err_persists(parts, pp + 1);
                                    lemma_queue_err_at(
                                        units,
                                        qv,
                                        qq,
                                        unit_first_error(parts).unwrap(),
                                    );
                                }
                                return Err(
                                    Error::UnsupportedConstruct(
                                        UnsupportedConstruct::ToplevelFunction,
                                    ),
                                );
                            },
                            solidity::SourceUnitPart::VariableDefinition => {
                                proof {
                                    lemma_unit_err_persists(parts, pp + 1);
                                    lemma_queue_err_at(
                                        units,
                                        qv,
                                        qq,
                                        unit_first_error(parts).unwrap(),
                                    );
                                }
                                return Err(
                                    Error::UnsupportedConstruct(
                                        UnsupportedConstruct::ToplevelVariable,
                                    ),
                                );
                            },
                            solidity::SourceUnitPart::TypeDefinition => {
                                proof {
                                    lemma_unit_err_persists(parts, pp + 1);
                                    lemma_queue_err_at(
                                        units,
                                        qv,
                                        qq,
                                        unit_first_error(parts).unwrap(),
                                    );
                                }
                                return Err(
                                    Error::UnsupportedConstruct(
                                        UnsupportedConstruct::ToplevelTypeDefinition,
                                    ),
                                );
                            },
                            solidity::SourceUnitPart::Annotation => {},
                            solidity::SourceUnitPart::Using => {
                                proof {
                                    lemma_unit_err_persists(parts, pp + 1);
                                    lemma_queue_err_at(
                                        units,
                                        qv,
                                        qq,
                                        unit_first_error(parts).unwrap(),
                                    );
                                }
                                return Err(
                                    Error::UnsupportedConstruct(
                                        UnsupportedConstruct::ToplevelUsing,
                                    ),
                                );
                            },
                            solidity::SourceUnitPart::StraySemicolon => {},
                        }
                        pi += 1;
                    }
                    proof {
                        assert(parts.take(plen as int) =~= parts);
                        assert(qv.take(qq + 1).drop_last() =~= qv.take(qq));
                        assert(qv.take(qq + 1).last() == qv[qq]);
                        assert(queue_contract_defs(units, qv.take(qq + 1)) =~= pre
                            + unit_contract_defs(qv[qq], parts));
                        let pairs = queue_contract_defs(units, qv.take(qq + 1));
                        assert forall|k: int|
                            0 <= k < defs@.len() implies definition_translation(
                            pairs[k].0@,
                            pairs[k].1,
                            #[trigger] defs@[k],
                        ) by {
                            if k < defs0.len() {
                                assert(defs@[k] == defs0[k]);
                                assert(pairs[k] == pre[k]);
                            } else {
                                assert(pairs[k] == unit_contract_defs(qv[qq], parts)[k
                                    - defs0.len()]);
                            }
                        }
                    }
                },
            }
            qi += 1;
        }
        proof {
            assert(qv.take(qlen as int) =~= qv);
        }
        Ok(defs)
    }
}

} // verus!
