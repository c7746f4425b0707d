use sol2sway::project::translate_type_name;
use sol2sway::solidity::ContractTy;
use sol2sway::translate::{TranslatedDefinition, TranslatedVariable, TranslationScope};

fn fresh_definition() -> TranslatedDefinition {
    TranslatedDefinition::new(
        "/p/a.sol".to_string(),
        ContractTy::Contract,
        "Token".to_string(),
        vec!["Base".to_string()],
    )
}

#[test]
fn type_mapping_integers() {
    assert_eq!(translate_type_name("uint").name, "u64");
    assert_eq!(translate_type_name("uint256").name, "u64");
}

#[test]
fn type_mapping_addresses() {
    assert_eq!(translate_type_name("address").name, "Address");
    assert_eq!(translate_type_name("address payable").name, "Address");
}

#[test]
fn type_mapping_passes_unknown_names_through() {
    assert_eq!(translate_type_name("MyStruct").name, "MyStruct");
    assert_eq!(translate_type_name("bool").name, "bool");
}

#[test]
fn events_enum_is_created_once() {
    let mut d = fresh_definition();
    d.get_events_enum();
    let once = d.clone();
    d.get_events_enum();
    assert_eq!(d, once);
    let e = d.events_enum.as_ref().unwrap();
    assert_eq!(e.name, "TokenEvent");
    assert!(!e.is_public);
    assert!(e.variants.is_empty());
}

#[test]
fn errors_enum_is_created_once() {
    let mut d = fresh_definition();
    d.get_errors_enum();
    let once = d.clone();
    d.get_errors_enum();
    assert_eq!(d, once);
    assert_eq!(d.errors_enum.as_ref().unwrap().name, "TokenError");
}

#[test]
fn abi_is_created_once_with_name_and_inherits() {
    let mut d = fresh_definition();
    d.get_abi();
    let once = d.clone();
    d.get_abi();
    assert_eq!(d, once);
    let a = d.abi.as_ref().unwrap();
    assert_eq!(a.name, "Token");
    assert_eq!(a.inherits, vec!["Base".to_string()]);
    assert!(a.functions.is_empty());
}

#[test]
fn configurable_is_created_once() {
    let mut d = fresh_definition();
    d.get_configurable();
    let once = d.clone();
    d.get_configurable();
    assert_eq!(d, once);
    assert!(d.configurable.as_ref().unwrap().fields.is_empty());
}

#[test]
fn storage_is_created_once() {
    let mut d = fresh_definition();
    d.get_storage();
    let once = d.clone();
    d.get_storage();
    assert_eq!(d, once);
    assert!(d.storage.as_ref().unwrap().fields.is_empty());
}

#[test]
fn contract_impl_is_created_at_most_once() {
    let mut d = fresh_definition();
    d.get_contract_impl();
    assert_eq!(d.impls.len(), 1);
    d.get_contract_impl();
    assert_eq!(d.impls.len(), 1);
    let imp = &d.impls[0];
    assert_eq!(imp.ty.name, "Token");
    assert_eq!(imp.for_ty.as_ref().unwrap().name, "Contract");
    assert!(imp.items.is_empty());
}

fn variable(old_name: &str, new_name: &str) -> TranslatedVariable {
    TranslatedVariable {
        old_name: old_name.to_string(),
        new_name: new_name.to_string(),
        ty: translate_type_name("uint"),
        is_storage: false,
        statement_index: None,
        mutation_count: 0,
    }
}

#[test]
fn find_variable_searches_local_scope_from_the_back() {
    let scope = TranslationScope {
        parent: None,
        variables: vec![variable("x", "x_old"), variable("x", "x_new")],
    };
    let found = scope.find_variable("x").unwrap();
    assert_eq!(found.new_name, "x_new");
    assert!(scope.find_variable("y").is_none());
}

#[test]
fn find_variable_falls_back_to_the_parent_scope() {
    let parent = TranslationScope {
        parent: None,
        variables: vec![variable("outer", "outer_v")],
    };
    let child = TranslationScope {
        parent: Some(Box::new(parent)),
        variables: vec![variable("inner", "inner_v")],
    };
    assert_eq!(child.find_variable("inner").unwrap().new_name, "inner_v");
    assert_eq!(child.find_variable("outer").unwrap().new_name, "outer_v");
    assert!(child.find_variable("missing").is_none());
}

#[test]
fn find_variable_mut_updates_the_found_variable() {
    let parent = TranslationScope {
        parent: None,
        variables: vec![variable("outer", "outer_v")],
    };
    let mut child = TranslationScope {
        parent: Some(Box::new(parent)),
        variables: vec![variable("inner", "inner_v")],
    };
    let v = child.find_variable_mut("outer").unwrap();
    v.mutation_count += 1;
    assert_eq!(child.parent.as_ref().unwrap().variables[0].mutation_count, 1);
    assert_eq!(child.variables[0].mutation_count, 0);
    assert!(child.find_variable_mut("missing").is_none());
}
