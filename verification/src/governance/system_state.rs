//! The gas price, and where the inner system state is found.
use crate::ids::{Bytes32, ObjectId};
use crate::kvstore::cells::{bcs_from_u64, bcs_u64};
use crate::kvstore::watermarks::BcsError;
use crate::text::{around_number, decimal};
use vstd::prelude::*;

verus! {

/// The reference gas price, from the column of a database that knows no unsigned integers: the
/// 64 bits are taken as they are.
pub fn reference_gas_price(column: i64) -> (r: u64)
    ensures
        r == if column >= 0 {
            column as int
        } else {
            column + 0x1_0000_0000_0000_0000
        },
{
    assert(column >= 0 ==> column as u64 == column) by (bit_vector);
    assert(column < 0 ==> column as u64 == column + 0x1_0000_0000_0000_0000) by (bit_vector);
    #[verifier::truncate]
    (column as u64)
}

/// The formats of the inner system state.
#[derive(Clone, Copy, Debug, PartialEq, Eq, Structural)]
pub enum InnerFormat {
    V1,
    V2,
}

/// The inner system state has a version that is not known.
#[derive(Clone, Copy, Debug, PartialEq, Eq, Structural)]
pub struct UnexpectedVersion(pub u64);

impl UnexpectedVersion {
    /// What to report.
    pub fn message(&self) -> (r: String)
        ensures
            r@ == "Unexpected inner system state version: "@ + decimal(self.0 as nat),
    {
        proof {
            reveal_strlit("");
        }
        let r = around_number("Unexpected inner system state version: ", self.0, "");
        assert(r@ =~= "Unexpected inner system state version: "@ + decimal(self.0 as nat));
        r
    }
}

/// The name of the dynamic field that holds the inner system state of a version: BCS of the
/// version.
pub fn inner_field_name(version: u64) -> (r: Result<Vec<u8>, BcsError>)
    ensures
        r matches Ok(name) && name@ == bcs_u64(version),
{
    match bcs_from_u64(version) {
        Ok(name) => Ok(name),
        Err(source) => Err(BcsError { source }),
    }
}

/// The bytes of the id of a dynamic field with a `u64` name: a digest of the bytes of its parent's
/// id and of the bytes of its name.
pub uninterp spec fn u64_field_id(parent: Seq<u8>, name: Seq<u8>) -> Seq<u8>;

/// `sui_sdk_types::Address::derive_dynamic_child_id` for names of type `u64`: depends on nothing
/// but the parent and the name. How the digest is made is left unsaid.
#[verifier::external_body]
fn derive_u64_field_id(parent: &[u8; 32], name: &[u8]) -> (r: [u8; 32])
    ensures
        r@ == u64_field_id(parent@, name@),
{
    let parent = sui_sdk_types::Address::new(*parent);
    parent.derive_dynamic_child_id(&sui_sdk_types::TypeTag::U64, name).into_inner()
}

/// The id of the system state object.
pub open spec fn spec_system_state_object_id() -> ObjectId {
    Bytes32 { hi: 0, lo: 5 }
}

/// The id of the system state object.
pub fn system_state_object_id() -> (r: ObjectId)
    ensures
        r == spec_system_state_object_id(),
{
    Bytes32 { hi: 0, lo: 5 }
}

/// The id of the object that holds the inner system state of a version.
pub fn inner_field_id(version: u64) -> (r: Result<ObjectId, BcsError>)
    ensures
        r matches Ok(id) && id.bytes() == u64_field_id(
            spec_system_state_object_id().bytes(),
            bcs_u64(version),
        ),
{
    match inner_field_name(version) {
        Ok(name) => {
            let parent = system_state_object_id().to_bytes();
            Ok(Bytes32::from_bytes(&derive_u64_field_id(&parent, name.as_slice())))
        },
        Err(e) => Err(e),
    }
}

/// Why the inner system state cannot be asked for.
#[derive(Debug)]
pub enum SystemStateError {
    /// The version cannot be written as the name of a field.
    Name(BcsError),
    UnexpectedVersion(UnexpectedVersion),
}

/// Where the inner system state is found, and how it is read.
#[derive(Clone, Copy, Debug, PartialEq, Eq, Structural)]
pub struct InnerRequest {
    pub id: ObjectId,
    pub format: InnerFormat,
}

/// The format of the inner system state of a version, if the version is known.
pub open spec fn format_of(version: u64) -> Option<InnerFormat> {
    if version == 1 {
        Some(InnerFormat::V1)
    } else if version == 2 {
        Some(InnerFormat::V2)
    } else {
        None
    }
}

/// What to ask for to get the inner system state of a version: the object with the id of that
/// version, in the format of that version.
pub fn inner_request(version: u64) -> (r: Result<InnerRequest, SystemStateError>)
    ensures
        match format_of(version) {
            Some(format) => r matches Ok(request) && request.format == format && request.id.bytes()
                == u64_field_id(spec_system_state_object_id().bytes(), bcs_u64(version)),
            None => r is Err && r->Err_0 == SystemStateError::UnexpectedVersion(
                UnexpectedVersion(version),
            ),
        },
{
    match inner_field_id(version) {
        Ok(id) => match inner_format(version) {
            Ok(format) => Ok(InnerRequest { id, format }),
            Err(e) => Err(SystemStateError::UnexpectedVersion(e)),
        },
        Err(e) => Err(SystemStateError::Name(e)),
    }
}

/// The format of the inner system state of a version.
pub fn inner_format(version: u64) -> (r: Result<InnerFormat, UnexpectedVersion>)
    ensures
        r == match format_of(version) {
            Some(format) => Ok::<InnerFormat, UnexpectedVersion>(format),
            None => Err(UnexpectedVersion(version)),
        },
{
    match version {
        1 => Ok(InnerFormat::V1),
        2 => Ok(InnerFormat::V2),
        v => Err(UnexpectedVersion(v)),
    }
}

} // verus!
