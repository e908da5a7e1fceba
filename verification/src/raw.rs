//! Decision steps behind the driver-object helpers.
//!
//! Creating a buffer, a vertex array, a shader or a program ends with the
//! driver reporting an object id or a status word; what result the caller
//! gets back is decided here, so the decision is specified and proved
//! while the native calls themselves stay with the embedding application.

use crate::error::{GlError, GlResult};
use vstd::prelude::*;

verus! {

/// The result for a freshly created driver object: the driver reports the
/// id `0` when creation failed, in which case `failure` is returned.
pub fn object_id_result(id: u32, failure: GlError) -> (r: GlResult<u32>)
    ensures
        r == if id == 0 {
            GlResult::<u32>::Err(failure)
        } else {
            GlResult::<u32>::Ok(id)
        },
{
    if id == 0 {
        Err(failure)
    } else {
        Ok(id)
    }
}

/// The result of compiling shader `shader_id`: the driver's compile
/// status is `1` on success; on anything else the shader's info log, when
/// one was available, is attached to the error.
pub fn compile_status_result(shader_id: u32, status: i32, log: Option<String>) -> (r: GlResult<
    u32,
>)
    ensures
        r == if status == 1 {
            GlResult::<u32>::Ok(shader_id)
        } else {
            GlResult::<u32>::Err(GlError::ShaderCompilation(log))
        },
{
    if status == 1 {
        Ok(shader_id)
    } else {
        Err(GlError::ShaderCompilation(log))
    }
}

/// The result of linking a program: the driver's link status is `1` on
/// success; on anything else the program's info log, when one was
/// available, is attached to the error.
pub fn link_status_result(status: i32, log: Option<String>) -> (r: GlResult<()>)
    ensures
        r == if status == 1 {
            GlResult::<()>::Ok(())
        } else {
            GlResult::<()>::Err(GlError::ProgramLinkage(log))
        },
{
    if status == 1 {
        Ok(())
    } else {
        Err(GlError::ProgramLinkage(log))
    }
}

} // verus!
