use vstd::prelude::*;

verus! {

/// A parsed call expression `path(arg, ...)`; carried through to code generation.
#[verifier::external_type_specification]
#[verifier::external_body]
pub struct ExExprCall(syn::ExprCall);

/// A parsed expression; carried through to code generation.
#[verifier::external_type_specification]
#[verifier::external_body]
pub struct ExExpr(syn::Expr);

/// A parsed type; carried through to code generation.
#[verifier::external_type_specification]
#[verifier::external_body]
pub struct ExType(syn::Type);

} // verus!
