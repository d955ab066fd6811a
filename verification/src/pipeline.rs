//! Pipeline orchestrator: dialect selection by extension, dialect
//! compilation, UTF-8 decoding, scope-key derivation and selector scoping,
//! short-circuiting on the first failure of any stage.

use crate::compile::{compile, CompileError};
use crate::scope_key::{
    derive_scope_key, extension_of, is_extended, spec_base_name, spec_is_extended, ResolutionError,
};
use crate::scoper::{bindings_view, scope, scope_result, ClassBinding, ScopeError};
use vstd::prelude::*;
use vstd::string::*;
use vstd::utf8::{decode_utf8, valid_utf8};

verus! {

/// One style-sheet source to transform: its logical identity (a
/// `/`-separated path, which selects the dialect and seeds the scope key)
/// and its raw bytes.
pub struct SourceUnit {
    pub path: String,
    pub bytes: Vec<u8>,
}

/// The first failure of any pipeline stage.
#[derive(Clone, Debug)]
pub enum PipelineError {
    /// The path has no usable extension or final component.
    Resolution(ResolutionError),
    /// The dialect compiler rejected the source.
    Compile(CompileError),
    /// The plain style-sheet text could not be decoded or scoped.
    Scope(ScopeError),
}

/// Relies on `String::from_utf8`: it succeeds exactly when the bytes are a
/// valid UTF-8 encoding, and then returns the string those bytes encode.
#[verifier::external_body]
fn decode_bytes(bytes: Vec<u8>) -> (r: Option<String>)
    ensures
        r is Some <==> valid_utf8(bytes@),
        r is Some ==> r.unwrap()@ == decode_utf8(bytes@),
{
    String::from_utf8(bytes).ok()
}

/// What `process` yields on a unit that needs no dialect compilation:
/// scoping of the decoded bytes under the path's scope key, or `None` when
/// the bytes are not UTF-8, the path has no key, or scoping fails.
pub open spec fn plain_process_result(p: Seq<char>, bytes: Seq<u8>) -> Option<
    (Seq<(Seq<char>, Seq<char>)>, Seq<char>),
> {
    if valid_utf8(bytes) && spec_base_name(p, true) is Some {
        scope_result(spec_base_name(p, true).unwrap(), decode_utf8(bytes))
    } else {
        None
    }
}

/// Run the whole pipeline on one source unit: pick the dialect from the
/// path's extension, compile, decode, derive the scope key and scope the
/// selectors. The first failing stage aborts with its error and no partial
/// output.
///
/// For plain-dialect units the result is pinned exactly; for
/// extended-dialect units the compiled text is whatever the external
/// compiler produced, and the result is a faithful scoping of that text.
pub fn process(unit: &SourceUnit) -> (r: Result<(Vec<ClassBinding>, String), PipelineError>)
    ensures
        ({
            let p = unit.path@;
            let b = unit.bytes@;
            match r {
                Ok(res) => {
                    &&& extension_of(p) is Some
                    &&& spec_base_name(p, true) is Some
                    &&& if spec_is_extended(p) {
                        exists|c: Seq<u8>|
                            plain_process_result(p, c) == Some(
                                (bindings_view(res.0@), res.1@),
                            )
                    } else {
                        plain_process_result(p, b) == Some((bindings_view(res.0@), res.1@))
                    }
                },
                Err(e) => match e {
                    PipelineError::Resolution(_) => extension_of(p) is None,
                    PipelineError::Compile(_) => extension_of(p) is Some && spec_is_extended(p),
                    PipelineError::Scope(_) => extension_of(p) is Some && (spec_is_extended(p)
                        || plain_process_result(p, b) is None),
                },
            }
        }),
        !spec_is_extended(unit.path@) && extension_of(unit.path@) is Some ==> (r is Ok
            <==> plain_process_result(unit.path@, unit.bytes@) is Some),
{
    let extended = match is_extended(unit.path.as_str()) {
        Ok(b) => b,
        Err(e) => {
            return Err(PipelineError::Resolution(e));
        },
    };
    let compiled = match compile(&unit.bytes, extended) {
        Ok(out) => out,
        Err(e) => {
            return Err(PipelineError::Compile(e));
        },
    };
    let ghost compiled_bytes = compiled@;
    let css = match decode_bytes(compiled) {
        Some(s) => s,
        None => {
            return Err(
                PipelineError::Scope(
                    ScopeError { message: String::from_str("source is not valid UTF-8") },
                ),
            );
        },
    };
    let key = match derive_scope_key(unit.path.as_str()) {
        Ok(k) => k,
        Err(e) => {
            return Err(PipelineError::Resolution(e));
        },
    };
    match scope(key.as_str(), css.as_str()) {
        Ok(out) => {
            proof {
                assert(plain_process_result(unit.path@, compiled_bytes) == Some(
                    (bindings_view(out.0@), out.1@),
                ));
            }
            Ok(out)
        },
        Err(e) => Err(PipelineError::Scope(e)),
    }
}

} // verus!
