use model_query::artifact::{
    compiled_class_hash, declaration_class, declaration_params, flattened_class, CasmFault,
    ADD_PYTHONIC_HINTS,
};

type CompiledClass = starknet::core::types::contract::CompiledClass;
type FieldElement = starknet::core::types::FieldElement;
type SierraClass = starknet::core::types::contract::SierraClass;

const SIERRA: &str = r#"{
    "sierra_program": ["0x1", "0x4", "0x0", "0x2a"],
    "sierra_program_debug_info": {"type_names": [], "libfunc_names": [], "user_func_names": []},
    "contract_class_version": "0.1.0",
    "entry_points_by_type": {
        "EXTERNAL": [{"selector": "0x7", "function_idx": 0}],
        "L1_HANDLER": [],
        "CONSTRUCTOR": []
    },
    "abi": []
}"#;

const CASM: &str = r#"{
    "prime": "0x800000000000011000000000000000000000000000000000000000000000001",
    "compiler_version": "2.4.4",
    "bytecode": ["0x1", "0x2", "0x208b7fff7fff7ffe"],
    "hints": [],
    "pythonic_hints": [],
    "entry_points_by_type": {
        "EXTERNAL": [{"selector": "0x7", "offset": 0, "builtins": ["range_check"]}],
        "L1_HANDLER": [],
        "CONSTRUCTOR": []
    }
}"#;

fn casm_hash() -> Vec<u8> {
    let class: CompiledClass = serde_json::from_str(CASM).unwrap();
    class.class_hash().unwrap().to_bytes_be().to_vec()
}

#[test]
fn pythonic_hints_are_asked_for() {
    assert!(ADD_PYTHONIC_HINTS);
}

#[test]
fn flattening_keeps_program_version_and_entry_points() {
    let flattened = flattened_class(&SIERRA.as_bytes().to_vec()).unwrap();
    assert_eq!(
        flattened.sierra_program,
        vec![
            FieldElement::from(1u8),
            FieldElement::from(4u8),
            FieldElement::from(0u8),
            FieldElement::from(42u8)
        ]
    );
    assert_eq!(flattened.contract_class_version, "0.1.0");
    assert_eq!(flattened.abi, "[]");
    assert_eq!(flattened.entry_points_by_type.external.len(), 1);
    assert_eq!(flattened.entry_points_by_type.external[0].selector, FieldElement::from(7u8));
    assert_eq!(flattened.entry_points_by_type.external[0].function_idx, 0);
    assert!(flattened.entry_points_by_type.l1_handler.is_empty());
    assert!(flattened.entry_points_by_type.constructor.is_empty());
    let class: SierraClass = serde_json::from_str(SIERRA).unwrap();
    assert_eq!(flattened.class_hash(), class.class_hash().unwrap());
}

#[test]
fn flattening_refuses_what_is_no_artifact() {
    assert_eq!(
        flattened_class(&b"{}".to_vec()).unwrap_err(),
        "missing field `sierra_program` at line 1 column 2"
    );
    assert_eq!(
        flattened_class(&Vec::new()).unwrap_err(),
        "EOF while parsing a value at line 1 column 0"
    );
    assert!(flattened_class(&CASM.as_bytes().to_vec()).is_err());
}

#[test]
fn hash_of_a_compiled_class() {
    let hash = compiled_class_hash(Ok(CASM.to_string())).unwrap();
    assert_eq!(hash.len(), 32);
    assert_eq!(hash[..4], [0x03, 0x0e, 0x55, 0xa3]);
    assert_eq!(hash[28..], [0x00, 0x5e, 0xfa, 0x20]);
    assert_eq!(hash, casm_hash());
    assert_eq!(
        FieldElement::from_byte_slice_be(&hash).unwrap(),
        FieldElement::from_hex_be(
            "0x030e55a3d5941be4e24f55f11dcbc8ccc808145d8b134092144a9bd7005efa20"
        )
        .unwrap()
    );
}

#[test]
fn hash_changes_with_the_bytecode() {
    let other = CASM.replace("\"0x2\"", "\"0x3\"");
    let hash = compiled_class_hash(Ok(other)).unwrap();
    assert_eq!(hash.len(), 32);
    assert_ne!(hash, casm_hash());
}

#[test]
fn a_refusal_of_the_compiler_is_reported_under_its_heading() {
    assert_eq!(
        compiled_class_hash(Err(CasmFault::Compile("Invalid entry point.".to_string()))),
        Err("CasmContractClass from ContractClass error: Invalid entry point.".to_string())
    );
}

#[test]
fn other_failures_on_the_way_to_the_hash_are_reported_as_they_are() {
    assert_eq!(
        compiled_class_hash(Err(CasmFault::Parse("no class".to_string()))),
        Err("no class".to_string())
    );
    assert_eq!(
        compiled_class_hash(Err(CasmFault::Write("no text".to_string()))),
        Err("no text".to_string())
    );
    assert_eq!(
        compiled_class_hash(Ok("{}".to_string())),
        Err("missing field `prime` at line 1 column 2".to_string())
    );
    let long_name = CASM.replace("range_check", "a_builtin_name_of_more_than_31_characters");
    assert_eq!(compiled_class_hash(Ok(long_name)), Err("invalid builtin name".to_string()));
}

#[test]
fn a_declaration_fails_first_with_the_flattening() {
    assert_eq!(
        declaration_class(&b"{}".to_vec()).unwrap_err(),
        "error flattening the contract class: missing field `sierra_program` at line 1 column 2"
    );
    let flattened = declaration_class(&SIERRA.as_bytes().to_vec()).unwrap();
    assert_eq!(flattened.contract_class_version, "0.1.0");
}

#[test]
fn a_declaration_holds_the_flattened_class_and_the_hash() {
    let flattened = declaration_class(&SIERRA.as_bytes().to_vec()).unwrap();
    let (class, hash) = declaration_params(flattened, Ok(CASM.to_string())).unwrap();
    assert_eq!(class.sierra_program.len(), 4);
    assert_eq!(class.abi, "[]");
    assert_eq!(hash, casm_hash());
}

#[test]
fn a_declaration_reports_a_failed_hash_under_its_heading() {
    let flattened = || declaration_class(&SIERRA.as_bytes().to_vec()).unwrap();
    assert_eq!(
        declaration_params(flattened(), Err(CasmFault::Compile("Invalid entry point.".to_string())))
            .unwrap_err(),
        "error computing compiled class hash: CasmContractClass from ContractClass error: \
         Invalid entry point."
    );
    assert_eq!(
        declaration_params(flattened(), Err(CasmFault::Parse("no class".to_string())))
            .unwrap_err(),
        "error computing compiled class hash: no class"
    );
    assert_eq!(
        declaration_params(flattened(), Ok("[]".to_string())).unwrap_err(),
        "error computing compiled class hash: invalid length 0, expected struct CompiledClass \
         with 6 elements at line 1 column 2"
    );
}
