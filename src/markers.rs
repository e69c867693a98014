//! The fixed marker texts of the format's header records.
use vstd::prelude::*;

verus! {

/// `HEADER RECORD*******LIBRARY HEADER RECORD!!!!!!!`: the library header record.
pub open spec fn library_marker() -> Seq<u8> {
    seq![72u8, 69, 65, 68, 69, 82, 32, 82, 69, 67, 79, 82, 68, 42, 42, 42, 42, 42, 42, 42, 76, 73, 66, 82, 65, 82, 89, 32, 72, 69, 65, 68, 69, 82, 32, 82, 69, 67, 79, 82, 68, 33, 33, 33, 33, 33, 33, 33]
}

pub fn library_marker_bytes() -> (r: Vec<u8>)
    ensures
        r@ == library_marker(),
{
    let r = vec![72u8, 69, 65, 68, 69, 82, 32, 82, 69, 67, 79, 82, 68, 42, 42, 42, 42, 42, 42, 42, 76, 73, 66, 82, 65, 82, 89, 32, 72, 69, 65, 68, 69, 82, 32, 82, 69, 67, 79, 82, 68, 33, 33, 33, 33, 33, 33, 33];
    assert(r@ =~= library_marker());
    r
}

/// `HEADER RECORD*******MEMBER  HEADER RECORD!!!!!!!`: the member header record.
pub open spec fn member_marker() -> Seq<u8> {
    seq![72u8, 69, 65, 68, 69, 82, 32, 82, 69, 67, 79, 82, 68, 42, 42, 42, 42, 42, 42, 42, 77, 69, 77, 66, 69, 82, 32, 32, 72, 69, 65, 68, 69, 82, 32, 82, 69, 67, 79, 82, 68, 33, 33, 33, 33, 33, 33, 33]
}

pub fn member_marker_bytes() -> (r: Vec<u8>)
    ensures
        r@ == member_marker(),
{
    let r = vec![72u8, 69, 65, 68, 69, 82, 32, 82, 69, 67, 79, 82, 68, 42, 42, 42, 42, 42, 42, 42, 77, 69, 77, 66, 69, 82, 32, 32, 72, 69, 65, 68, 69, 82, 32, 82, 69, 67, 79, 82, 68, 33, 33, 33, 33, 33, 33, 33];
    assert(r@ =~= member_marker());
    r
}

/// `HEADER RECORD*******DSCRPTR HEADER RECORD!!!!!!!`: the descriptor header record.
pub open spec fn descriptor_marker() -> Seq<u8> {
    seq![72u8, 69, 65, 68, 69, 82, 32, 82, 69, 67, 79, 82, 68, 42, 42, 42, 42, 42, 42, 42, 68, 83, 67, 82, 80, 84, 82, 32, 72, 69, 65, 68, 69, 82, 32, 82, 69, 67, 79, 82, 68, 33, 33, 33, 33, 33, 33, 33]
}

pub fn descriptor_marker_bytes() -> (r: Vec<u8>)
    ensures
        r@ == descriptor_marker(),
{
    let r = vec![72u8, 69, 65, 68, 69, 82, 32, 82, 69, 67, 79, 82, 68, 42, 42, 42, 42, 42, 42, 42, 68, 83, 67, 82, 80, 84, 82, 32, 72, 69, 65, 68, 69, 82, 32, 82, 69, 67, 79, 82, 68, 33, 33, 33, 33, 33, 33, 33];
    assert(r@ =~= descriptor_marker());
    r
}

/// `HEADER RECORD*******NAMESTR HEADER RECORD!!!!!!!`: the namestr header record.
pub open spec fn namestr_marker() -> Seq<u8> {
    seq![72u8, 69, 65, 68, 69, 82, 32, 82, 69, 67, 79, 82, 68, 42, 42, 42, 42, 42, 42, 42, 78, 65, 77, 69, 83, 84, 82, 32, 72, 69, 65, 68, 69, 82, 32, 82, 69, 67, 79, 82, 68, 33, 33, 33, 33, 33, 33, 33]
}

pub fn namestr_marker_bytes() -> (r: Vec<u8>)
    ensures
        r@ == namestr_marker(),
{
    let r = vec![72u8, 69, 65, 68, 69, 82, 32, 82, 69, 67, 79, 82, 68, 42, 42, 42, 42, 42, 42, 42, 78, 65, 77, 69, 83, 84, 82, 32, 72, 69, 65, 68, 69, 82, 32, 82, 69, 67, 79, 82, 68, 33, 33, 33, 33, 33, 33, 33];
    assert(r@ =~= namestr_marker());
    r
}

/// `HEADER RECORD*******OBS     HEADER RECORD!!!!!!!`: the observation header record.
pub open spec fn observation_marker() -> Seq<u8> {
    seq![72u8, 69, 65, 68, 69, 82, 32, 82, 69, 67, 79, 82, 68, 42, 42, 42, 42, 42, 42, 42, 79, 66, 83, 32, 32, 32, 32, 32, 72, 69, 65, 68, 69, 82, 32, 82, 69, 67, 79, 82, 68, 33, 33, 33, 33, 33, 33, 33]
}

pub fn observation_marker_bytes() -> (r: Vec<u8>)
    ensures
        r@ == observation_marker(),
{
    let r = vec![72u8, 69, 65, 68, 69, 82, 32, 82, 69, 67, 79, 82, 68, 42, 42, 42, 42, 42, 42, 42, 79, 66, 83, 32, 32, 32, 32, 32, 72, 69, 65, 68, 69, 82, 32, 82, 69, 67, 79, 82, 68, 33, 33, 33, 33, 33, 33, 33];
    assert(r@ =~= observation_marker());
    r
}

/// `SAS     `: the tag that opens the first real header and the member data record.
pub open spec fn sas_tag() -> Seq<u8> {
    seq![83u8, 65, 83, 32, 32, 32, 32, 32]
}

pub fn sas_tag_bytes() -> (r: Vec<u8>)
    ensures
        r@ == sas_tag(),
{
    let r = vec![83u8, 65, 83, 32, 32, 32, 32, 32];
    assert(r@ =~= sas_tag());
    r
}

} // verus!
