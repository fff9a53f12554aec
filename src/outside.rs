//! Declarations of the outside types that the library carries through.
use vstd::prelude::*;

verus! {

#[verifier::external_type_specification]
#[verifier::external_body]
pub struct ExIoError(std::io::Error);

#[verifier::external_type_specification]
#[verifier::external_body]
pub struct ExLinesCodec(tokio_util::codec::LinesCodec);

#[verifier::external_type_specification]
pub struct ExLinesCodecError(tokio_util::codec::LinesCodecError);

#[verifier::external_type_specification]
#[verifier::external_body]
pub struct ExBytesMut(tokio_util::bytes::BytesMut);

} // verus!
