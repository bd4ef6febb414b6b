//! Contract artifacts: what a declaration needs of a compiled contract.
//!
//! A declaration takes the flattened Sierra class of an artifact and the
//! hash of its compiled class. Flattening and hashing are the work of the
//! Starknet class types; what is decided here is the order of the attempts
//! and what a failure is reported as.
//!
//! The Sierra-to-CASM compiler is not called from here. It can panic on a
//! malformed program, which no function of this library may do, so the
//! caller runs it and hands in what came of it.

use vstd::prelude::*;
use vstd::string::*;

verus! {

/// The flattened Sierra class of starknet-core. Nothing is known here of what
/// a value of it holds.
#[verifier::external_type_specification]
#[verifier::external_body]
pub struct ExFlattenedSierraClass(starknet::core::types::FlattenedSierraClass);

/// What flattening the artifact with the given content fails with, if it fails.
pub uninterp spec fn flatten_fault(content: Seq<u8>) -> Option<Seq<char>>;

/// The hash, in 32 bytes with the most significant first, of the compiled
/// class that the text holds, or what reading or hashing it fails with.
pub uninterp spec fn hash_of_casm(text: Seq<char>) -> Result<Seq<u8>, Seq<char>>;

/// Whether the compiler is asked to add pythonic hints to a compiled class.
pub const ADD_PYTHONIC_HINTS: bool = true;

/// Why no compiled class came of an artifact.
#[derive(Clone, Debug, PartialEq, Eq)]
pub enum CasmFault {
    /// The content is no contract class.
    Parse(String),
    /// The compiler refused the class.
    Compile(String),
    /// The compiled class could not be written as text.
    Write(String),
}

/// The mathematical content of a [`CasmFault`].
pub enum CasmFaultView {
    Parse(Seq<char>),
    Compile(Seq<char>),
    Write(Seq<char>),
}

impl View for CasmFault {
    type V = CasmFaultView;

    open spec fn view(&self) -> CasmFaultView {
        match self {
            CasmFault::Parse(m) => CasmFaultView::Parse(m@),
            CasmFault::Compile(m) => CasmFaultView::Compile(m@),
            CasmFault::Write(m) => CasmFaultView::Write(m@),
        }
    }
}

/// The content of what the compiler handed back.
pub open spec fn casm_view(casm: Result<String, CasmFault>) -> Result<Seq<char>, CasmFaultView> {
    match casm {
        Ok(text) => Ok(text@),
        Err(fault) => Err(fault@),
    }
}

/// What a failed flattening is reported as in a declaration.
pub open spec fn flatten_heading() -> Seq<char> {
    "error flattening the contract class: "@
}

/// What a failed hash is reported as in a declaration.
pub open spec fn hash_heading() -> Seq<char> {
    "error computing compiled class hash: "@
}

/// What a refusal of the compiler is reported as.
pub open spec fn compile_heading() -> Seq<char> {
    "CasmContractClass from ContractClass error: "@
}

/// The compiled class hash that comes of what the compiler handed back. A
/// refusal of the compiler is reported under its heading; any other failure
/// is reported as it is.
pub open spec fn hash_result(casm: Result<Seq<char>, CasmFaultView>) -> Result<
    Seq<u8>,
    Seq<char>,
> {
    match casm {
        Ok(text) => hash_of_casm(text),
        Err(CasmFaultView::Compile(m)) => Err(compile_heading() + m),
        Err(CasmFaultView::Parse(m)) => Err(m),
        Err(CasmFaultView::Write(m)) => Err(m),
    }
}

/// Calls `SierraClass::flatten` of starknet-core on the class that
/// `serde_json::from_slice` reads from the content. Both depend on the
/// content alone, so the failure has a name; a failure of either is handed
/// out as the text that it displays as. Of the flattened class nothing is
/// claimed.
#[verifier::external_body]
fn flatten_artifact(content: &Vec<u8>) -> (r: Result<
    starknet::core::types::FlattenedSierraClass,
    String,
>)
    ensures
        match r {
            Ok(_) => flatten_fault(content@) is None,
            Err(e) => flatten_fault(content@) == Some(e@),
        },
{
    let class: starknet::core::types::contract::SierraClass = match serde_json::from_slice(content) {
        Ok(class) => class,
        Err(e) => return Err(e.to_string()),
    };
    match class.flatten() {
        Ok(flattened) => Ok(flattened),
        Err(e) => Err(e.to_string()),
    }
}

/// Calls `CompiledClass::class_hash` of starknet-core on the class that
/// `serde_json::from_str` reads from the text, and writes the hash with
/// `FieldElement::to_bytes_be`, which gives 32 bytes. All three depend on the
/// text alone, so the result has a name; a failure is handed out as the text
/// that it displays as.
#[verifier::external_body]
fn hash_casm(text: &str) -> (r: Result<Vec<u8>, String>)
    ensures
        match r {
            Ok(hash) => hash_of_casm(text@) == Ok::<Seq<u8>, Seq<char>>(hash@),
            Err(e) => hash_of_casm(text@) == Err::<Seq<u8>, Seq<char>>(e@),
        },
        r matches Ok(hash) ==> hash@.len() == 32,
{
    let class: starknet::core::types::contract::CompiledClass = match serde_json::from_str(text) {
        Ok(class) => class,
        Err(e) => return Err(e.to_string()),
    };
    match class.class_hash() {
        Ok(hash) => Ok(hash.to_bytes_be().to_vec()),
        Err(e) => Err(e.to_string()),
    }
}

/// A heading followed by a message.
fn headed(heading: &str, message: &str) -> (text: String)
    ensures
        text@ == heading@ + message@,
{
    String::from_str(heading).concat(message)
}

/// The flattened Sierra class of the artifact with the given content.
pub fn flattened_class(content: &Vec<u8>) -> (r: Result<
    starknet::core::types::FlattenedSierraClass,
    String,
>)
    ensures
        match r {
            Ok(_) => flatten_fault(content@) is None,
            Err(e) => flatten_fault(content@) == Some(e@),
        },
{
    flatten_artifact(content)
}

/// The compiled class hash that comes of what the compiler handed back for
/// an artifact, in 32 bytes with the most significant first.
pub fn compiled_class_hash(casm: Result<String, CasmFault>) -> (r: Result<Vec<u8>, String>)
    ensures
        match r {
            Ok(hash) => hash_result(casm_view(casm)) == Ok::<Seq<u8>, Seq<char>>(hash@),
            Err(e) => hash_result(casm_view(casm)) == Err::<Seq<u8>, Seq<char>>(e@),
        },
        r matches Ok(hash) ==> hash@.len() == 32,
{
    match casm {
        Ok(text) => hash_casm(text.as_str()),
        Err(CasmFault::Compile(m)) => Err(
            headed("CasmContractClass from ContractClass error: ", m.as_str()),
        ),
        Err(CasmFault::Parse(m)) => Err(m),
        Err(CasmFault::Write(m)) => Err(m),
    }
}

/// The first step of preparing a declaration: the flattened class of the
/// artifact. Flattening is tried before anything is compiled, and a failure
/// of it is what the declaration fails with, under its heading.
pub fn declaration_class(content: &Vec<u8>) -> (r: Result<
    starknet::core::types::FlattenedSierraClass,
    String,
>)
    ensures
        match r {
            Ok(_) => flatten_fault(content@) is None,
            Err(e) => flatten_fault(content@) matches Some(m) && e@ == flatten_heading() + m,
        },
{
    match flatten_artifact(content) {
        Ok(flattened) => Ok(flattened),
        Err(m) => Err(headed("error flattening the contract class: ", m.as_str())),
    }
}

/// The second step of preparing a declaration: the flattened class together
/// with the compiled class hash that comes of what the compiler handed back.
/// A failure to come by the hash is reported under its heading.
pub fn declaration_params(
    flattened: starknet::core::types::FlattenedSierraClass,
    casm: Result<String, CasmFault>,
) -> (r: Result<(starknet::core::types::FlattenedSierraClass, Vec<u8>), String>)
    ensures
        match r {
            Ok(pair) => {
                &&& pair.0 == flattened
                &&& hash_result(casm_view(casm)) == Ok::<Seq<u8>, Seq<char>>(pair.1@)
                &&& pair.1@.len() == 32
            },
            Err(e) => hash_result(casm_view(casm)) matches Err(m) && e@ == hash_heading() + m,
        },
{
    match compiled_class_hash(casm) {
        Ok(hash) => Ok((flattened, hash)),
        Err(m) => Err(headed("error computing compiled class hash: ", m.as_str())),
    }
}

} // verus!
