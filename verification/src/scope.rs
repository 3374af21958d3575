//! The symbol table: lexical scopes binding names to functions and variables.
//!
//! A scope owns its functions and variables (insertion order is declaration
//! order and is the stable id space), a name table mapping each name to one
//! entity, the stack of active loop-end labels, the enclosing function's end
//! label, and the next free frame offset for locals.

use vstd::prelude::*;

use crate::ast::{Assignment, Block, FunctionDeclaration, InputSpan, TypeRef};
use crate::error::CodegenError;
use crate::instr::{LabelId, RegId};
use crate::types::{primitive_type, spec_primitive_type, Type};

verus! {

/// Where a value lives: at a fixed global label, at a signed byte offset from
/// the frame pointer, or directly in a register.
#[derive(Clone, Copy, PartialEq, Eq, Structural, Debug)]
pub enum Location {
    Label(LabelId),
    Offset(i16),
    Register(RegId),
}

/// A reference into either the function list or the variable list of the
/// scope that owns it.
#[derive(Clone, Copy, PartialEq, Eq, Structural, Debug)]
pub enum IdentId {
    FnIdentId(usize),
    VarIdentId(usize),
}

/// A registered function: its declaration data, its resolved parameter and
/// return types, and its unique entry label.
#[derive(Debug)]
pub struct Function {
    pub name: String,
    /// Ordered `(name, type)` parameter list, in declaration order.
    pub params: Vec<(String, TypeRef)>,
    pub body: Block,
    pub span: InputSpan,
    /// Resolved parameter types, matching declaration order.
    pub arg_types: Vec<Type>,
    /// Resolved return type.
    pub rtype: Type,
    /// The function's unique entry label.
    pub location: LabelId,
}

/// Every type stored in a function record admits a `u32` size computation.
pub open spec fn fn_types_sized(f: Function) -> bool {
    &&& f.rtype.sized()
    &&& forall|i: int| 0 <= i < f.arg_types@.len() ==> (#[trigger] f.arg_types@[i]).sized()
}

/// All parameter type references of a declaration are primitives.
pub open spec fn all_params_primitive(params: Seq<(String, TypeRef)>) -> bool {
    forall|i: int| 0 <= i < params.len() ==> (#[trigger] params[i]).1 is Primitive
}

impl Function {
    /// Resolves a declaration's parameter and return types against the type
    /// table and pairs them with the function's entry label.
    ///
    /// Fails with a type-resolution error when a parameter or return type is
    /// a bare name: only primitives stand in the global type table.
    pub fn new(decl: FunctionDeclaration, location: LabelId) -> (r: Result<Function, CodegenError>)
        ensures
            r is Ok <==> decl.rtype is Primitive && all_params_primitive(decl.params@),
            r is Err ==> r == Err::<Function, CodegenError>(
                CodegenError::UnresolvedType { span: decl.span },
            ),
            r is Ok ==> {
                let f = r->Ok_0;
                &&& f.name == decl.name
                &&& f.params == decl.params
                &&& f.body == decl.body
                &&& f.span == decl.span
                &&& f.location == location
                &&& f.rtype == spec_primitive_type(decl.rtype->Primitive_0)
                &&& f.arg_types@.len() == decl.params@.len()
                &&& forall|i: int|
                    0 <= i < decl.params@.len() ==> (#[trigger] f.arg_types@[i])
                        == spec_primitive_type(decl.params@[i].1->Primitive_0)
                &&& fn_types_sized(f)
            },
    {
        let mut arg_types: Vec<Type> = Vec::new();
        let n = decl.params.len();
        for i in 0..n
            invariant
                n == decl.params@.len(),
                arg_types@.len() == i,
                forall|j: int|
                    0 <= j < i ==> (#[trigger] decl.params@[j]).1 is Primitive,
                forall|j: int|
                    0 <= j < i ==> (#[trigger] arg_types@[j])
                        == spec_primitive_type(decl.params@[j].1->Primitive_0),
                forall|j: int| 0 <= j < i ==> (#[trigger] arg_types@[j]).sized(),
        {
            match &decl.params[i].1 {
                TypeRef::Primitive(k) => {
                    arg_types.push(primitive_type(*k));
                },
                TypeRef::Named(_) => {
                    return Err(CodegenError::UnresolvedType { span: decl.span });
                },
            }
        }
        let rtype = match &decl.rtype {
            TypeRef::Primitive(k) => primitive_type(*k),
            TypeRef::Named(_) => {
                return Err(CodegenError::UnresolvedType { span: decl.span });
            },
        };
        Ok(Function {
            name: decl.name,
            params: decl.params,
            body: decl.body,
            span: decl.span,
            arg_types,
            rtype,
            location,
        })
    }
}

/// A registered variable: its declaration data, its resolved type, and its
/// storage location, assigned exactly once at creation.
#[derive(Debug)]
pub struct Variable {
    pub name: String,
    pub var_type: TypeRef,
    pub assignment: Option<Assignment>,
    pub rtype: Type,
    pub location: Location,
    pub span: InputSpan,
}

impl Variable {
    /// Resolves the declared type against the type table and fixes the
    /// variable's storage location.
    ///
    /// Fails with a type-resolution error when the declared type is a bare
    /// name: only primitives stand in the global type table.
    pub fn new(
        name: String,
        var_type: TypeRef,
        assignment: Option<Assignment>,
        location: Location,
        span: InputSpan,
    ) -> (r: Result<Variable, CodegenError>)
        ensures
            r is Ok <==> var_type is Primitive,
            r is Err ==> r == Err::<Variable, CodegenError>(
                CodegenError::UnresolvedType { span: span },
            ),
            r is Ok ==> r == Ok::<Variable, CodegenError>(
                Variable {
                    name: name,
                    var_type: var_type,
                    assignment: assignment,
                    rtype: spec_primitive_type(var_type->Primitive_0),
                    location: location,
                    span: span,
                },
            ),
            r is Ok ==> r->Ok_0.rtype.sized() && r->Ok_0.rtype.spec_size() <= 4,
    {
        let rtype = match &var_type {
            TypeRef::Primitive(k) => primitive_type(*k),
            TypeRef::Named(_) => {
                return Err(CodegenError::UnresolvedType { span });
            },
        };
        Ok(Variable { name, var_type, assignment, rtype, location, span })
    }
}

/// The identifier bound first to a name in a name table, if any.
pub open spec fn lookup_id(table: Seq<(String, IdentId)>, name: Seq<char>) -> Option<IdentId>
    decreases table.len(),
{
    if table.len() == 0 {
        None
    } else if table[0].0@ == name {
        Some(table[0].1)
    } else {
        lookup_id(table.drop_first(), name)
    }
}

/// A name bound in a name table names an entity of that table.
pub proof fn lemma_lookup_id_in_table(table: Seq<(String, IdentId)>, name: Seq<char>)
    requires
        lookup_id(table, name) is Some,
    ensures
        exists|i: int|
            0 <= i < table.len() && (#[trigger] table[i]).1 == lookup_id(table, name)->Some_0,
    decreases table.len(),
{
    if table.len() == 0 {
    } else if table[0].0@ == name {
        assert(table[0].1 == lookup_id(table, name)->Some_0);
    } else {
        lemma_lookup_id_in_table(table.drop_first(), name);
        let j = choose|j: int|
            0 <= j < table.drop_first().len() && (#[trigger] table.drop_first()[j]).1 == lookup_id(
                table.drop_first(),
                name,
            )->Some_0;
        assert(table[j + 1] == table.drop_first()[j]);
    }
}

/// One lexical scope.
#[derive(Debug)]
pub struct Scope {
    /// Functions owned by this scope, in declaration order.
    pub functions: Vec<Function>,
    /// Variables owned by this scope, in declaration order.
    pub vars: Vec<Variable>,
    /// Next free frame offset for a local binding.
    pub next_offset: i16,
    /// The name table: each name is bound to exactly one entity.
    pub ident_table: Vec<(String, IdentId)>,
    /// Stack of the end labels of the loops currently being compiled; the top
    /// is the target of `break`.
    pub loop_ends: Vec<LabelId>,
    /// The end label of the enclosing function, the target of `return`.
    pub end_label: LabelId,
}

impl Scope {
    /// Every name-table entry points into the entity lists, and every stored
    /// type admits a `u32` size computation.
    pub open spec fn wf(self) -> bool {
        &&& forall|i: int|
            0 <= i < self.ident_table@.len() ==> match (#[trigger] self.ident_table@[i]).1 {
                IdentId::FnIdentId(k) => k < self.functions@.len(),
                IdentId::VarIdentId(k) => k < self.vars@.len(),
            }
        &&& forall|i: int| 0 <= i < self.vars@.len() ==> (#[trigger] self.vars@[i]).rtype.sized()
        &&& forall|i: int|
            0 <= i < self.functions@.len() ==> fn_types_sized(#[trigger] self.functions@[i])
    }

    /// A fresh scope with the given function end label.
    ///
    /// The offset counter starts at 8: the first two words of every frame are
    /// reserved for the caller's frame pointer and the return address.
    pub fn new(end_label: LabelId) -> (s: Scope)
        ensures
            s.next_offset == 8,
            s.end_label == end_label,
            s.functions@ =~= Seq::<Function>::empty(),
            s.vars@ =~= Seq::<Variable>::empty(),
            s.ident_table@ =~= Seq::<(String, IdentId)>::empty(),
            s.loop_ends@ =~= Seq::<LabelId>::empty(),
            s.wf(),
    {
        Scope {
            functions: Vec::new(),
            vars: Vec::new(),
            next_offset: 8,
            ident_table: Vec::new(),
            loop_ends: Vec::new(),
            end_label,
        }
    }

    /// The identifier bound to a name in this scope alone, if any.
    pub fn find_ident(&self, name: &String) -> (r: Option<IdentId>)
        ensures
            r == lookup_id(self.ident_table@, name@),
    {
        let n = self.ident_table.len();
        proof {
            assert(self.ident_table@.skip(0) =~= self.ident_table@);
        }
        for i in 0..n
            invariant
                n == self.ident_table@.len(),
                lookup_id(self.ident_table@, name@) == lookup_id(
                    self.ident_table@.skip(i as int),
                    name@,
                ),
        {
            let entry = &self.ident_table[i];
            proof {
                assert(self.ident_table@.skip(i as int)[0] == self.ident_table@[i as int]);
                assert(self.ident_table@.skip(i as int).drop_first() =~= self.ident_table@.skip(
                    i as int + 1,
                ));
            }
            if entry.0 == *name {
                return Some(entry.1);
            }
        }
        proof {
            assert(self.ident_table@.skip(n as int) =~= Seq::<(String, IdentId)>::empty());
        }
        None
    }

    /// Add an identifier to the scope.
    ///
    /// Inserts the binding if the name is unbound; rebinding the same name to
    /// a different entity is a shadowing error (shadowing is not supported),
    /// and rebinding it to the same entity changes nothing.
    pub fn add_ident(&mut self, ident_name: String, ident: IdentId, span: InputSpan) -> (r: Result<
        (),
        CodegenError,
    >)
        ensures
            final(self).functions == old(self).functions,
            final(self).vars == old(self).vars,
            final(self).next_offset == old(self).next_offset,
            final(self).loop_ends == old(self).loop_ends,
            final(self).end_label == old(self).end_label,
            match lookup_id(old(self).ident_table@, ident_name@) {
                Option::None => r is Ok && final(self).ident_table@ == old(
                    self,
                ).ident_table@.push((ident_name, ident)),
                Option::Some(existing) => {
                    if existing == ident {
                        r is Ok && final(self).ident_table == old(self).ident_table
                    } else {
                        r == Err::<(), CodegenError>(
                            CodegenError::IdentifierShadowed { name: ident_name, span: span },
                        ) && final(self).ident_table == old(self).ident_table
                    }
                },
            },
            r is Ok ==> lookup_id(final(self).ident_table@, ident_name@) == Some(ident),
            old(self).wf() && (ident matches IdentId::FnIdentId(k) ==> k < old(
                self,
            ).functions@.len()) && (ident matches IdentId::VarIdentId(k) ==> k < old(
                self,
            ).vars@.len()) ==> final(self).wf(),
    {
        match self.find_ident(&ident_name) {
            Some(existing) => {
                if existing == ident {
                    Ok(())
                } else {
                    Err(CodegenError::IdentifierShadowed { name: ident_name, span })
                }
            },
            None => {
                self.ident_table.push((ident_name, ident));
                proof {
                    lemma_lookup_pushed(old(self).ident_table@, ident_name@, ident);
                }
                Ok(())
            },
        }
    }
}

/// Extending a well-formed scope with a variable bound under the next free
/// variable identifier keeps it well-formed.
pub proof fn lemma_wf_after_var_bind(pre: Scope, post: Scope, name: String, var: Variable)
    requires
        pre.wf(),
        var.rtype.sized(),
        post.ident_table@ == pre.ident_table@.push(
            (name, IdentId::VarIdentId(pre.vars@.len() as usize)),
        ),
        post.vars@ == pre.vars@.push(var),
        post.functions == pre.functions,
    ensures
        post.wf(),
{
    assert forall|ii: int| 0 <= ii < post.ident_table@.len() implies match (
    #[trigger] post.ident_table@[ii]).1 {
        IdentId::FnIdentId(k) => k < post.functions@.len(),
        IdentId::VarIdentId(k) => k < post.vars@.len(),
    } by {
        if ii < pre.ident_table@.len() {
            assert(post.ident_table@[ii] == pre.ident_table@[ii]);
        }
    }
    assert forall|ii: int| 0 <= ii < post.vars@.len() implies (
    #[trigger] post.vars@[ii]).rtype.sized() by {
        if ii < pre.vars@.len() {
            assert(post.vars@[ii] == pre.vars@[ii]);
        }
    }
}

/// Extending a well-formed scope with a function bound under the next free
/// function identifier keeps it well-formed.
pub proof fn lemma_wf_after_fn_bind(pre: Scope, post: Scope, name: String, f: Function)
    requires
        pre.wf(),
        fn_types_sized(f),
        post.ident_table@ == pre.ident_table@.push(
            (name, IdentId::FnIdentId(pre.functions@.len() as usize)),
        ),
        post.functions@ == pre.functions@.push(f),
        post.vars == pre.vars,
    ensures
        post.wf(),
{
    assert forall|ii: int| 0 <= ii < post.ident_table@.len() implies match (
    #[trigger] post.ident_table@[ii]).1 {
        IdentId::FnIdentId(k) => k < post.functions@.len(),
        IdentId::VarIdentId(k) => k < post.vars@.len(),
    } by {
        if ii < pre.ident_table@.len() {
            assert(post.ident_table@[ii] == pre.ident_table@[ii]);
        }
    }
    assert forall|ii: int|
        0 <= ii < post.functions@.len() implies fn_types_sized(
        #[trigger] post.functions@[ii],
    ) by {
        if ii < pre.functions@.len() {
            assert(post.functions@[ii] == pre.functions@[ii]);
        }
    }
}

/// Looking a name up right after binding it finds that binding; other names
/// are unaffected.
pub proof fn lemma_lookup_pushed(table: Seq<(String, IdentId)>, name: Seq<char>, id: IdentId)
    requires
        lookup_id(table, name) is None,
    ensures
        forall|entry: (String, IdentId)|
            entry.0@ == name && entry.1 == id ==> lookup_id(table.push(entry), name) == Some(id),
    decreases table.len(),
{
    if table.len() == 0 {
    } else {
        lemma_lookup_pushed(table.drop_first(), name, id);
        assert forall|entry: (String, IdentId)|
            entry.0@ == name && entry.1 == id implies lookup_id(table.push(entry), name) == Some(
            id,
        ) by {
            assert(table.push(entry).drop_first() =~= table.drop_first().push(entry));
        }
    }
}

} // verus!
