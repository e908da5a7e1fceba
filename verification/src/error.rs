//! The library's error type.
//!
//! `GlError` covers the conditions a graphics binding layer can report while
//! creating driver objects, together with the configuration mistakes the
//! layout planner itself detects before any directive is emitted.

use vstd::prelude::*;

verus! {

/// Shorthand for results whose error is [`GlError`].
pub type GlResult<T> = Result<T, GlError>;

/// An error reported at the boundary with the graphics driver.
///
/// The `ProgramLinkage`, `ProgramValidation` and `ShaderCompilation`
/// variants carry the driver's info log when one was available.
#[derive(Debug, PartialEq, Eq)]
#[allow(non_camel_case_types)]
pub enum GlError {
    ProgramLinkage(Option<String>),
    ProgramCreation,
    ProgramValidation(Option<String>),
    ShaderCreation,
    ShaderCompilation(Option<String>),
    TextureCreation,
    BufferCreation,
    VaoCreation,
    GL_INVALID_ENUM,
    GL_INVALID_VALUE,
    GL_INVALID_OPERATION,
    GL_OUT_OF_MEMORY,
    GL_UNKNOWN_ERROR,
}

impl GlError {
    /// The short description `as_str` returns for each variant.
    pub open spec fn spec_str(&self) -> Seq<char> {
        match *self {
            GlError::ProgramLinkage(_) => "program linking failed"@,
            GlError::ProgramCreation => "program creation failed"@,
            GlError::ProgramValidation(_) => "program validation failed"@,
            GlError::ShaderCreation => "shader creation failed"@,
            GlError::ShaderCompilation(_) => "shader compilation failed"@,
            GlError::TextureCreation => "texture creation failed"@,
            GlError::BufferCreation => "buffer creation failed"@,
            GlError::VaoCreation => "vao creation failed"@,
            GlError::GL_INVALID_ENUM => "GL_INVALID_ENUM"@,
            GlError::GL_INVALID_VALUE => "GL_INVALID_VALUE"@,
            GlError::GL_INVALID_OPERATION => "GL_INVALID_OPERATION"@,
            GlError::GL_OUT_OF_MEMORY => "GL_OUT_OF_MEMORY"@,
            GlError::GL_UNKNOWN_ERROR => "GL_UNKNOWN_ERROR"@,
        }
    }

    /// A short, fixed description of the error, without any attached log.
    pub fn as_str(&self) -> (r: &'static str)
        ensures
            r@ == self.spec_str(),
    {
        match *self {
            GlError::ProgramLinkage(_) => "program linking failed",
            GlError::ProgramCreation => "program creation failed",
            GlError::ProgramValidation(_) => "program validation failed",
            GlError::ShaderCreation => "shader creation failed",
            GlError::ShaderCompilation(_) => "shader compilation failed",
            GlError::TextureCreation => "texture creation failed",
            GlError::BufferCreation => "buffer creation failed",
            GlError::VaoCreation => "vao creation failed",
            GlError::GL_INVALID_ENUM => "GL_INVALID_ENUM",
            GlError::GL_INVALID_VALUE => "GL_INVALID_VALUE",
            GlError::GL_INVALID_OPERATION => "GL_INVALID_OPERATION",
            GlError::GL_OUT_OF_MEMORY => "GL_OUT_OF_MEMORY",
            GlError::GL_UNKNOWN_ERROR => "GL_UNKNOWN_ERROR",
        }
    }
}

} // verus!
