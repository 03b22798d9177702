//! The data model: contract descriptions recovered from Solidity sources,
//! deployment records recovered from broadcast logs, and the ghost models the
//! contracts of this crate are stated over.

use vstd::prelude::*;

verus! {

/// Why an input could not be parsed.  Malformed structural input is fatal
/// for the operation that hit it; callers report it and stop.
#[derive(Clone, Copy, Debug, PartialEq, Eq, Structural)]
pub enum ParseError {
    /// A constructor argument did not have the expected
    /// `type [qualifier] name` shape.
    ConstructorArgSyntax,
    /// A printed deployment record held fewer than the expected seven
    /// `field: value` pairs.
    DeploymentRecordSyntax,
}

/// One constructor argument: its name, its Solidity type (with ` payable`
/// appended for a payable address), whether it carries the `memory`
/// qualifier, and whether its type is user-defined.
#[derive(Clone, Debug, PartialEq)]
pub struct ConstructorArgObject {
    pub name: String,
    pub memory_type: bool,
    pub arg_type: String,
    pub custom_type: bool,
}

/// The ghost model of a constructor argument.
pub struct ArgModel {
    pub name: Seq<char>,
    pub memory_type: bool,
    pub arg_type: Seq<char>,
    pub custom_type: bool,
}

impl View for ConstructorArgObject {
    type V = ArgModel;

    open spec fn view(&self) -> ArgModel {
        ArgModel {
            name: self.name@,
            memory_type: self.memory_type,
            arg_type: self.arg_type@,
            custom_type: self.custom_type,
        }
    }
}

/// A contract's constructor: its ordered argument list, empty when the
/// contract declares no constructor or an empty one.
#[derive(Clone, Debug, PartialEq)]
pub struct ConstructorObject {
    pub args: Vec<ConstructorArgObject>,
}

impl View for ConstructorObject {
    type V = Seq<ArgModel>;

    open spec fn view(&self) -> Seq<ArgModel> {
        self.args@.map_values(|a: ConstructorArgObject| a@)
    }
}

/// One non-abstract contract discovered in a source tree.
#[derive(Clone, Debug, PartialEq)]
pub struct ContractObject {
    /// Path of the defining file, relative to the repository root, with
    /// forward-slash separators.
    pub solidity_filepath: String,
    pub contract_name: String,
    /// Base name of the defining file.
    pub solidity_filename: String,
    pub constructor: ConstructorObject,
}

/// The ghost model of a discovered contract.
pub struct ContractModel {
    pub solidity_filepath: Seq<char>,
    pub contract_name: Seq<char>,
    pub solidity_filename: Seq<char>,
    pub constructor_args: Seq<ArgModel>,
}

impl View for ContractObject {
    type V = ContractModel;

    open spec fn view(&self) -> ContractModel {
        ContractModel {
            solidity_filepath: self.solidity_filepath@,
            contract_name: self.contract_name@,
            solidity_filename: self.solidity_filename@,
            constructor_args: self.constructor@,
        }
    }
}

/// One deployment recovered from a broadcast log, identified by its
/// deployment context together with its name.
#[derive(Clone, Debug, PartialEq)]
pub struct DeploymentObject {
    pub name: String,
    pub address: String,
    pub bytecode: String,
    /// The constructor-call data as printed in the record.
    pub args_data: String,
    pub tx_hash: String,
    pub args: Option<Vec<String>>,
    /// Raw transaction calldata.
    pub data: String,
    /// `None` when the printed artifact path carried no `:ContractName`
    /// suffix.
    pub contract_name: Option<String>,
    pub artifact_path: String,
    pub deployment_context: String,
    pub chain_id: String,
}

/// The ghost model of a deployment record.
pub struct DeploymentModel {
    pub name: Seq<char>,
    pub address: Seq<char>,
    pub bytecode: Seq<char>,
    pub args_data: Seq<char>,
    pub tx_hash: Seq<char>,
    pub args: Option<Seq<Seq<char>>>,
    pub data: Seq<char>,
    pub contract_name: Option<Seq<char>>,
    pub artifact_path: Seq<char>,
    pub deployment_context: Seq<char>,
    pub chain_id: Seq<char>,
}

impl View for DeploymentObject {
    type V = DeploymentModel;

    open spec fn view(&self) -> DeploymentModel {
        DeploymentModel {
            name: self.name@,
            address: self.address@,
            bytecode: self.bytecode@,
            args_data: self.args_data@,
            tx_hash: self.tx_hash@,
            args: self.args.deep_view(),
            data: self.data@,
            contract_name: self.contract_name.deep_view(),
            artifact_path: self.artifact_path@,
            deployment_context: self.deployment_context@,
            chain_id: self.chain_id@,
        }
    }
}

/// The `bytecode` object of a compiler artifact.
#[derive(Clone, Debug, PartialEq)]
pub struct BytecodeJSON {
    pub object: String,
}

/// The `ast` header of a compiler artifact.
#[derive(Clone, Debug, PartialEq)]
pub struct ASTJSON {
    pub absolute_path: String,
    pub node_type: String,
}

/// One input of a constructor as described in an artifact's ABI.
#[derive(Clone, Debug, PartialEq)]
pub struct ABIInput {
    pub internal_type: String,
    pub name: String,
    pub input_type: String,
}

/// The constructor entry of an artifact's ABI.
#[derive(Clone, Debug, PartialEq)]
pub struct ABIConstructor {
    pub inputs: Vec<ABIInput>,
    pub state_mutability: String,
    pub entry_type: String,
}

} // verus!
