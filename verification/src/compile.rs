//! Dialect compiler stage. Plain style-sheet input passes through
//! unchanged; extended-dialect input is handed to the external dialect
//! compiler, which flattens it to plain style rules in compact form.

use vstd::prelude::*;

verus! {

/// Failure of the dialect-compilation stage.
#[derive(Clone, Debug)]
pub struct CompileError {
    pub message: String,
}

/// Relies on `rsass::compile_scss` with compressed output style: it compiles
/// extended-dialect source to plain style-sheet bytes. The compiler may read
/// files that the source names in `@import`/`@use`, so the result can depend
/// on what is on disk; nothing is pinned of it here beyond success or
/// failure, and the scoping stage is verified for every value it may return.
#[verifier::external_body]
fn rsass_compile(source: &Vec<u8>) -> (r: Result<Vec<u8>, String>) {
    match rsass::compile_scss(
        source.as_slice(),
        rsass::output::Format { style: rsass::output::Style::Compressed, ..Default::default() },
    ) {
        Ok(out) => Ok(out),
        Err(e) => Err(e.to_string()),
    }
}

/// Compile source bytes for the scoping stage. Without the extended
/// dialect this is the identity transform and cannot fail; with it, the
/// external compiler decides, and any failure is reported as a
/// `CompileError` with no partial output.
pub fn compile(source: &Vec<u8>, is_extended_dialect: bool) -> (r: Result<Vec<u8>, CompileError>)
    ensures
        !is_extended_dialect ==> r is Ok && r.unwrap()@ == source@,
        r is Err ==> is_extended_dialect,
{
    if is_extended_dialect {
        match rsass_compile(source) {
            Ok(out) => Ok(out),
            Err(message) => Err(CompileError { message }),
        }
    } else {
        Ok(vstd::slice::slice_to_vec(source.as_slice()))
    }
}

} // verus!
