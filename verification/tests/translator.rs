use sol2sway::errors::{Error, UnsupportedConstruct};
use sol2sway::project::Project;
use sol2sway::solidity::{
    ContractDefinition, ContractPart, ContractTy, EnumDefinition, ErrorDefinition,
    EventDefinition, FunctionDefinition, FunctionTy, SourceUnit, SourceUnitPart,
    StructDefinition, TypeDefinition, VariableDeclaration, VariableDefinition,
};
use sol2sway::sway;

fn decl(name: &str, ty: &str) -> VariableDeclaration {
    VariableDeclaration {
        name: name.to_string(),
        ty: ty.to_string(),
    }
}

fn function(
    ty: FunctionTy,
    name: &str,
    is_public: bool,
    params: Vec<VariableDeclaration>,
    return_types: Vec<&str>,
) -> FunctionDefinition {
    FunctionDefinition {
        ty,
        name: name.to_string(),
        is_public,
        params,
        return_types: return_types.iter().map(|t| t.to_string()).collect(),
    }
}

fn interface(name: &str, parts: Vec<ContractPart>) -> ContractDefinition {
    ContractDefinition {
        ty: ContractTy::Interface,
        name: name.to_string(),
        inherits: vec![],
        parts,
    }
}

fn contract(name: &str, parts: Vec<ContractPart>) -> ContractDefinition {
    ContractDefinition {
        ty: ContractTy::Contract,
        name: name.to_string(),
        inherits: vec![],
        parts,
    }
}

#[test]
fn interface_transfer_end_to_end() {
    // An interface declaring `transfer(address to, uint256 amount) returns (bool)`
    // yields one ABI entry with mapped parameter and return types, and no
    // events enum.
    let project = Project::new();
    let cd = interface(
        "IERC20",
        vec![ContractPart::FunctionDefinition(function(
            FunctionTy::Function,
            "transfer",
            true,
            vec![decl("to", "address"), decl("amount", "uint256")],
            vec!["bool"],
        ))],
    );
    let d = project.translate_interface("/p/ierc20.sol", &cd).unwrap();
    assert!(d.events_enum.is_none());
    assert!(d.errors_enum.is_none());
    let abi = d.abi.as_ref().unwrap();
    assert_eq!(abi.name, "IERC20");
    assert_eq!(abi.functions.len(), 1);
    let f = &abi.functions[0];
    assert_eq!(f.name, "transfer");
    assert_eq!(f.parameters.len(), 2);
    assert_eq!(f.parameters[0].name, "to");
    assert_eq!(f.parameters[0].ty.name, "Address");
    assert_eq!(f.parameters[1].name, "amount");
    assert_eq!(f.parameters[1].ty.name, "u64");
    assert_eq!(f.return_type.as_ref().unwrap().name, "bool");
    assert!(f.body.is_none());
}

#[test]
fn interface_function_names_are_rewritten_to_snake_case() {
    let project = Project::new();
    let cd = interface(
        "IVault",
        vec![ContractPart::FunctionDefinition(function(
            FunctionTy::Function,
            "getBalanceOf",
            true,
            vec![decl("theOwner", "address")],
            vec![],
        ))],
    );
    let d = project.translate_interface("/p/ivault.sol", &cd).unwrap();
    let f = &d.abi.as_ref().unwrap().functions[0];
    assert_eq!(f.name, "get_balance_of");
    assert_eq!(f.parameters[0].name, "the_owner");
    assert!(f.return_type.is_none());
}

#[test]
fn interface_events_become_enum_variants_with_tuple_payloads() {
    let project = Project::new();
    let cd = interface(
        "IToken",
        vec![
            ContractPart::EventDefinition(EventDefinition {
                name: "Transfer".to_string(),
                fields: vec!["address".to_string(), "uint256".to_string()],
            }),
            ContractPart::EventDefinition(EventDefinition {
                name: "Paused".to_string(),
                fields: vec![],
            }),
        ],
    );
    let d = project.translate_interface("/p/itoken.sol", &cd).unwrap();
    let e = d.events_enum.as_ref().unwrap();
    assert_eq!(e.name, "ITokenEvent");
    assert_eq!(e.variants.len(), 2);
    assert_eq!(e.variants[0].name, "Transfer");
    assert_eq!(e.variants[0].ty.name, "(Address, u64)");
    assert_eq!(e.variants[1].name, "Paused");
    assert_eq!(e.variants[1].ty.name, "()");
}

#[test]
fn interface_multiple_returns_become_a_tuple() {
    let project = Project::new();
    let cd = interface(
        "IPair",
        vec![ContractPart::FunctionDefinition(function(
            FunctionTy::Function,
            "getReserves",
            true,
            vec![],
            vec!["uint256", "address"],
        ))],
    );
    let d = project.translate_interface("/p/ipair.sol", &cd).unwrap();
    let f = &d.abi.as_ref().unwrap().functions[0];
    assert_eq!(f.return_type.as_ref().unwrap().name, "(u64, Address)");
}

#[test]
fn interface_variable_is_unsupported() {
    let project = Project::new();
    let cd = interface(
        "IBad",
        vec![ContractPart::VariableDefinition(VariableDefinition {
            name: "x".to_string(),
            ty: "uint".to_string(),
            is_public: false,
            is_constant: false,
            is_immutable: false,
        })],
    );
    let err = project.translate_interface("/p/ibad.sol", &cd).unwrap_err();
    assert_eq!(
        err,
        Error::UnsupportedConstruct(UnsupportedConstruct::InterfaceVariable)
    );
}

#[test]
fn interface_using_is_unsupported() {
    let project = Project::new();
    let cd = interface("IBad", vec![ContractPart::Using]);
    let err = project.translate_interface("/p/ibad.sol", &cd).unwrap_err();
    assert_eq!(
        err,
        Error::UnsupportedConstruct(UnsupportedConstruct::InterfaceUsing)
    );
}

fn state_variable(
    name: &str,
    ty: &str,
    is_public: bool,
    is_constant: bool,
    is_immutable: bool,
) -> VariableDefinition {
    VariableDefinition {
        name: name.to_string(),
        ty: ty.to_string(),
        is_public,
        is_constant,
        is_immutable,
    }
}

#[test]
fn contract_constants_keep_their_visibility() {
    let project = Project::new();
    let cd = contract(
        "Vault",
        vec![
            ContractPart::VariableDefinition(state_variable("maxSupply", "uint", true, true, false)),
            ContractPart::VariableDefinition(state_variable("innerCap", "uint", false, true, false)),
        ],
    );
    let d = project
        .translate_contract_definition("/p/vault.sol", &cd)
        .unwrap();
    assert_eq!(d.constants.len(), 2);
    assert_eq!(d.constants[0].name, "MAX_SUPPLY");
    assert!(d.constants[0].is_public);
    assert_eq!(d.constants[0].ty.name, "u64");
    assert_eq!(d.constants[0].value, Some(sway::Expression::Placeholder));
    assert_eq!(d.constants[1].name, "INNER_CAP");
    assert!(!d.constants[1].is_public);
    assert!(d.storage.is_none());
}

#[test]
fn contract_plain_variables_become_storage_fields() {
    let project = Project::new();
    let cd = contract(
        "Vault",
        vec![
            ContractPart::VariableDefinition(state_variable("totalSupply", "uint256", true, false, false)),
            ContractPart::VariableDefinition(state_variable("ownerOf", "address", false, false, false)),
        ],
    );
    let d = project
        .translate_contract_definition("/p/vault.sol", &cd)
        .unwrap();
    let st = d.storage.as_ref().unwrap();
    assert_eq!(st.fields.len(), 2);
    assert_eq!(st.fields[0].name, "total_supply");
    assert_eq!(st.fields[0].ty.name, "u64");
    assert_eq!(st.fields[1].name, "owner_of");
    assert_eq!(st.fields[1].ty.name, "Address");
    assert!(d.constants.is_empty());
}

#[test]
fn contract_immutable_variable_is_unsupported() {
    let project = Project::new();
    let cd = contract(
        "Vault",
        vec![ContractPart::VariableDefinition(state_variable(
            "deployer", "address", false, false, true,
        ))],
    );
    let err = project
        .translate_contract_definition("/p/vault.sol", &cd)
        .unwrap_err();
    assert_eq!(
        err,
        Error::UnsupportedConstruct(UnsupportedConstruct::ImmutableVariable)
    );
}

#[test]
fn contract_function_promotion_follows_visibility() {
    // The constructor and the public function reach the ABI; the internal
    // function and the modifier do not.
    let project = Project::new();
    let cd = contract(
        "Vault",
        vec![
            ContractPart::FunctionDefinition(function(FunctionTy::Constructor, "Vault", false, vec![], vec![])),
            ContractPart::FunctionDefinition(function(FunctionTy::Function, "depositAll", true, vec![], vec![])),
            ContractPart::FunctionDefinition(function(FunctionTy::Function, "internalSweep", false, vec![], vec![])),
            ContractPart::FunctionDefinition(function(FunctionTy::Modifier, "onlyOwner", true, vec![], vec![])),
        ],
    );
    let d = project
        .translate_contract_definition("/p/vault.sol", &cd)
        .unwrap();
    let abi = d.abi.as_ref().unwrap();
    assert_eq!(abi.name, "Vault");
    assert_eq!(abi.functions.len(), 2);
    assert_eq!(abi.functions[0].name, "constructor");
    assert_eq!(abi.functions[1].name, "deposit_all");
    assert!(abi.functions[0].body.is_none());
    assert_eq!(d.impls.len(), 1);
    let imp = &d.impls[0];
    assert_eq!(imp.ty.name, "Vault");
    assert_eq!(imp.for_ty.as_ref().unwrap().name, "Contract");
    assert_eq!(imp.items.len(), 2);
    let sway::ImplItem::Function(body_fn) = &imp.items[0];
    assert_eq!(body_fn.name, "constructor");
    let body = body_fn.body.as_ref().unwrap();
    assert!(body.statements.is_empty());
    assert_eq!(body.final_expr, Some(sway::Expression::Placeholder));
}

#[test]
fn contract_structs_and_type_aliases_are_lowered() {
    let project = Project::new();
    let cd = contract(
        "Vault",
        vec![
            ContractPart::StructDefinition(StructDefinition {
                name: "UserInfo".to_string(),
                fields: vec![decl("lastDeposit", "uint"), decl("walletAddress", "address")],
            }),
            ContractPart::TypeDefinition(TypeDefinition {
                name: "Shares".to_string(),
                ty: "uint256".to_string(),
            }),
        ],
    );
    let d = project
        .translate_contract_definition("/p/vault.sol", &cd)
        .unwrap();
    assert_eq!(d.structs.len(), 1);
    let s = &d.structs[0];
    assert!(s.is_public);
    assert_eq!(s.name, "UserInfo");
    assert_eq!(s.fields[0].name, "last_deposit");
    assert_eq!(s.fields[0].ty.name, "u64");
    assert_eq!(s.fields[1].name, "wallet_address");
    assert_eq!(s.fields[1].ty.name, "Address");
    assert_eq!(d.type_definitions.len(), 1);
    let td = &d.type_definitions[0];
    assert!(td.is_public);
    assert_eq!(td.name.name, "Shares");
    assert_eq!(td.underlying_type.as_ref().unwrap().name, "u64");
}

#[test]
fn contract_events_and_enums_are_recognized_gaps() {
    let project = Project::new();
    let cd = contract(
        "Vault",
        vec![
            ContractPart::EventDefinition(EventDefinition {
                name: "Deposited".to_string(),
                fields: vec!["uint".to_string()],
            }),
            ContractPart::EnumDefinition(EnumDefinition {
                name: "Mode".to_string(),
            }),
            ContractPart::ErrorDefinition(ErrorDefinition {
                name: "Empty".to_string(),
                fields: vec![],
            }),
            ContractPart::Using,
            ContractPart::Annotation,
            ContractPart::StraySemicolon,
        ],
    );
    let d = project
        .translate_contract_definition("/p/vault.sol", &cd)
        .unwrap();
    assert!(d.events_enum.is_none());
    assert!(d.errors_enum.is_none());
    assert!(d.abi.is_none());
    assert!(d.storage.is_none());
    assert!(d.impls.is_empty());
}

fn unit_with(parts: Vec<SourceUnitPart>) -> SourceUnit {
    SourceUnit { parts }
}

#[test]
fn translate_drains_the_queue_in_order() {
    let mut project = Project::new();
    let iface = interface(
        "IVault",
        vec![ContractPart::FunctionDefinition(function(
            FunctionTy::Function,
            "deposit",
            true,
            vec![],
            vec![],
        ))],
    );
    let conc = contract(
        "Vault",
        vec![ContractPart::VariableDefinition(state_variable(
            "total", "uint", true, false, false,
        ))],
    );
    project.register_source_unit(
        "/p/ivault.sol".to_string(),
        "\n",
        unit_with(vec![
            SourceUnitPart::PragmaDirective,
            SourceUnitPart::ContractDefinition(iface),
        ]),
    );
    project.register_source_unit(
        "/p/vault.sol".to_string(),
        "\n",
        unit_with(vec![SourceUnitPart::ContractDefinition(conc)]),
    );
    let queue = vec!["/p/ivault.sol".to_string(), "/p/vault.sol".to_string()];
    let defs = project.translate(&queue).unwrap();
    assert_eq!(defs.len(), 2);
    assert_eq!(defs[0].name, "IVault");
    assert_eq!(defs[0].kind, ContractTy::Interface);
    assert_eq!(defs[0].path, "/p/ivault.sol");
    assert_eq!(defs[1].name, "Vault");
    assert_eq!(defs[1].kind, ContractTy::Contract);
}

#[test]
fn abstract_contract_is_lowered_like_a_contract() {
    let project = Project::new();
    let cd = ContractDefinition {
        ty: ContractTy::Abstract,
        name: "Base".to_string(),
        inherits: vec![],
        parts: vec![ContractPart::VariableDefinition(state_variable(
            "counter", "uint", false, false, false,
        ))],
    };
    let d = project
        .translate_contract_definition("/p/base.sol", &cd)
        .unwrap();
    assert_eq!(d.kind, ContractTy::Abstract);
    assert_eq!(d.storage.as_ref().unwrap().fields[0].name, "counter");
}

#[test]
fn translate_reports_a_missing_source_unit() {
    let project = Project::new();
    let queue = vec!["/p/ghost.sol".to_string()];
    let err = project.translate(&queue).unwrap_err();
    assert_eq!(err, Error::MissingSourceUnit("/p/ghost.sol".to_string()));
}

#[test]
fn translate_rejects_a_library() {
    let mut project = Project::new();
    let lib = ContractDefinition {
        ty: ContractTy::Library,
        name: "MathLib".to_string(),
        inherits: vec![],
        parts: vec![],
    };
    project.register_source_unit(
        "/p/mathlib.sol".to_string(),
        "\n",
        unit_with(vec![SourceUnitPart::ContractDefinition(lib)]),
    );
    let queue = vec!["/p/mathlib.sol".to_string()];
    let err = project.translate(&queue).unwrap_err();
    assert_eq!(err, Error::UnsupportedConstruct(UnsupportedConstruct::Library));
}

#[test]
fn translate_rejects_free_declarations() {
    let cases = vec![
        (SourceUnitPart::EnumDefinition, UnsupportedConstruct::ToplevelEnum),
        (SourceUnitPart::StructDefinition, UnsupportedConstruct::ToplevelStruct),
        (SourceUnitPart::EventDefinition, UnsupportedConstruct::ToplevelEvent),
        (SourceUnitPart::ErrorDefinition, UnsupportedConstruct::ToplevelError),
        (SourceUnitPart::FunctionDefinition, UnsupportedConstruct::ToplevelFunction),
        (SourceUnitPart::VariableDefinition, UnsupportedConstruct::ToplevelVariable),
        (SourceUnitPart::TypeDefinition, UnsupportedConstruct::ToplevelTypeDefinition),
        (SourceUnitPart::Using, UnsupportedConstruct::ToplevelUsing),
    ];
    for (part, construct) in cases {
        let mut project = Project::new();
        project.register_source_unit("/p/free.sol".to_string(), "\n", unit_with(vec![part]));
        let queue = vec!["/p/free.sol".to_string()];
        let err = project.translate(&queue).unwrap_err();
        assert_eq!(err, Error::UnsupportedConstruct(construct));
    }
}

#[test]
fn translate_returns_nothing_after_the_first_error() {
    let mut project = Project::new();
    let good = interface("IOk", vec![]);
    project.register_source_unit(
        "/p/ok.sol".to_string(),
        "\n",
        unit_with(vec![SourceUnitPart::ContractDefinition(good)]),
    );
    project.register_source_unit(
        "/p/bad.sol".to_string(),
        "\n",
        unit_with(vec![SourceUnitPart::EnumDefinition]),
    );
    let queue = vec!["/p/ok.sol".to_string(), "/p/bad.sol".to_string()];
    let err = project.translate(&queue).unwrap_err();
    assert_eq!(err, Error::UnsupportedConstruct(UnsupportedConstruct::ToplevelEnum));
}
