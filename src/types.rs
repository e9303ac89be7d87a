use vstd::prelude::*;
use crate::ast;
use crate::text::append;

verus! {

broadcast use vstd::std_specs::vec::group_vec_axioms;

/// The types the checker assigns.
#[derive(Debug)]
pub enum Type {
    Int,
    Float,
    Bool,
    String,
    Unit,
    Function { params: Vec<Type>, return_type: Box<Type> },
}

/// What a type is, mathematically: equality of views is structural equality.
pub enum TypeView {
    Int,
    Float,
    Bool,
    String,
    Unit,
    Function(Seq<TypeView>, Box<TypeView>),
}

pub open spec fn type_view(t: Type) -> TypeView
    decreases t, 0int,
{
    match t {
        Type::Int => TypeView::Int,
        Type::Float => TypeView::Float,
        Type::Bool => TypeView::Bool,
        Type::String => TypeView::String,
        Type::Unit => TypeView::Unit,
        Type::Function { params, return_type } => TypeView::Function(
            types_view(params, 0),
            Box::new(type_view(*return_type)),
        ),
    }
}

/// The views of `p[i..]`.
pub open spec fn types_view(p: Vec<Type>, i: int) -> Seq<TypeView>
    decreases p, p.len() - i,
{
    if 0 <= i < p.len() {
        seq![type_view(p@[i])] + types_view(p, i + 1)
    } else {
        Seq::empty()
    }
}

impl View for Type {
    type V = TypeView;

    open spec fn view(&self) -> TypeView {
        type_view(*self)
    }
}

pub proof fn lemma_types_view(p: Vec<Type>, i: int)
    requires
        0 <= i <= p.len(),
    ensures
        types_view(p, i).len() == p.len() - i,
        forall|m: int| 0 <= m < p.len() - i ==> #[trigger] types_view(p, i)[m] == type_view(p@[m + i]),
    decreases p.len() - i,
{
    if i < p.len() {
        lemma_types_view(p, i + 1);
        assert forall|m: int| 0 <= m < p.len() - i implies #[trigger] types_view(p, i)[m] == type_view(p@[m + i]) by {
            if m > 0 {
                assert(types_view(p, i)[m] == types_view(p, i + 1)[m - 1]);
            }
        }
    }
}

/// Structural equality, computed.
pub fn types_equal(a: &Type, b: &Type) -> (r: bool)
    ensures
        r == (a@ == b@),
    decreases *a, 0int,
{
    match a {
        Type::Function { params: p, return_type: ra } => match b {
            Type::Function { params: q, return_type: rb } => {
                if p.len() != q.len() {
                    proof {
                        lemma_types_view(*p, 0);
                        lemma_types_view(*q, 0);
                    }
                    return false;
                }
                let same_params = types_all_equal(p, q, 0);
                let same_ret = types_equal(ra, rb);
                proof {
                    lemma_types_view(*p, 0);
                    lemma_types_view(*q, 0);
                    if same_params {
                        assert forall|m: int| 0 <= m < p.len() implies types_view(*p, 0)[m] == types_view(*q, 0)[m] by {
                            assert(type_view(p@[m + 0]) == type_view(q@[m + 0]));
                        }
                        assert(types_view(*p, 0) =~= types_view(*q, 0));
                    } else {
                        let m = choose|m: int| 0 <= m < p.len() && type_view(#[trigger] p@[m]) != type_view(q@[m]);
                        assert(m + 0 == m);
                        assert(types_view(*p, 0)[m] != types_view(*q, 0)[m]);
                    }
                }
                same_params && same_ret
            },
            _ => false,
        },
        Type::Int => matches!(b, Type::Int),
        Type::Float => matches!(b, Type::Float),
        Type::Bool => matches!(b, Type::Bool),
        Type::String => matches!(b, Type::String),
        Type::Unit => matches!(b, Type::Unit),
    }
}

/// Whether `p[i..]` and `q[i..]` agree pairwise (`q` being as long as `p`).
fn types_all_equal(p: &Vec<Type>, q: &Vec<Type>, i: usize) -> (r: bool)
    requires
        i <= p.len(),
        p.len() == q.len(),
    ensures
        r == forall|m: int| i <= m < p.len() ==> type_view(#[trigger] p@[m]) == type_view(q@[m]),
    decreases *p, p.len() - i,
{
    if i < p.len() {
        let head = types_equal(&p[i], &q[i]);
        let rest = types_all_equal(p, q, i + 1);
        proof {
            if head && rest {
                assert forall|m: int| i <= m < p.len() implies type_view(#[trigger] p@[m]) == type_view(q@[m]) by {
                    if m > i as int {
                    }
                }
            }
        }
        head && rest
    } else {
        true
    }
}

/// An equal copy of a type.
pub fn copy_type(t: &Type) -> (r: Type)
    ensures
        r@ == t@,
    decreases *t, 0int,
{
    match t {
        Type::Function { params, return_type } => {
            let copies = copy_types(params);
            let ret = copy_type(return_type);
            proof {
                lemma_types_view(copies, 0);
                lemma_types_view(*params, 0);
                assert forall|m: int| 0 <= m < params.len() implies types_view(copies, 0)[m] == types_view(*params, 0)[m] by {
                    assert(type_view(copies@[m + 0]) == type_view(params@[m + 0]));
                }
                assert(types_view(copies, 0) =~= types_view(*params, 0));
            }
            Type::Function { params: copies, return_type: Box::new(ret) }
        },
        Type::Int => Type::Int,
        Type::Float => Type::Float,
        Type::Bool => Type::Bool,
        Type::String => Type::String,
        Type::Unit => Type::Unit,
    }
}

fn copy_types(params: &Vec<Type>) -> (r: Vec<Type>)
    ensures
        r.len() == params.len(),
        forall|m: int| 0 <= m < r.len() ==> type_view(#[trigger] r@[m]) == type_view(params@[m]),
    decreases *params, params.len(),
{
    let mut copies: Vec<Type> = Vec::new();
    let mut k: usize = 0;
    while k < params.len()
        invariant
            k <= params.len(),
            copies.len() == k,
            forall|m: int| 0 <= m < k ==> type_view(#[trigger] copies@[m]) == type_view(params@[m]),
        decreases params.len() - k,
    {
        proof {
            assert(decreases_to!(*params => params[k as int]));
        }
        let c = copy_type(&params[k]);
        copies.push(c);
        k = k + 1;
    }
    copies
}

/// How a type is written in messages.
pub open spec fn type_text(t: TypeView) -> Seq<char> {
    match t {
        TypeView::Int => "i32"@,
        TypeView::Float => "f64"@,
        TypeView::Bool => "bool"@,
        TypeView::String => "str"@,
        TypeView::Unit => "()"@,
        TypeView::Function(..) => "function"@,
    }
}

impl Type {
    /// How the type is written in messages.
    pub fn name(&self) -> (r: String)
        ensures
            r@ == type_text(self@),
    {
        match self {
            Type::Int => String::from_str("i32"),
            Type::Float => String::from_str("f64"),
            Type::Bool => String::from_str("bool"),
            Type::String => String::from_str("str"),
            Type::Unit => String::from_str("()"),
            Type::Function { .. } => String::from_str("function"),
        }
    }
}

/// The checker's type of a written type name.
pub open spec fn type_of_ast(t: ast::Type) -> TypeView {
    match t {
        ast::Type::I32 => TypeView::Int,
        ast::Type::I64 => TypeView::Int,
        ast::Type::I8 | ast::Type::I16 | ast::Type::I128 => TypeView::Int,
        ast::Type::F32 => TypeView::Float,
        ast::Type::String => TypeView::String,
        ast::Type::F64 => TypeView::Float,
        ast::Type::Bool => TypeView::Bool,
        ast::Type::Str => TypeView::String,
    }
}

pub fn from_ast_type(ast_type: &ast::Type) -> (r: Type)
    ensures
        r@ == type_of_ast(*ast_type),
{
    match ast_type {
        ast::Type::I32 => Type::Int,
        ast::Type::I64 => Type::Int,
        ast::Type::I8 | ast::Type::I16 | ast::Type::I128 => Type::Int,
        ast::Type::F32 => Type::Float,
        ast::Type::String => Type::String,
        ast::Type::F64 => Type::Float,
        ast::Type::Bool => Type::Bool,
        ast::Type::Str => Type::String,
    }
}

/// A scope as a sequence of bindings, in the order they were made.
pub type Scope = Seq<(Seq<char>, TypeView)>;

/// The latest binding of `name` in one scope.
pub open spec fn scope_find(scope: Scope, name: Seq<char>) -> Option<TypeView>
    decreases scope.len(),
{
    if scope.len() == 0 {
        None
    } else if scope.last().0 == name {
        Some(scope.last().1)
    } else {
        scope_find(scope.drop_last(), name)
    }
}

/// The binding of `name` in the innermost scope that has one.
pub open spec fn env_find(scopes: Seq<Scope>, name: Seq<char>) -> Option<TypeView>
    decreases scopes.len(),
{
    if scopes.len() == 0 {
        None
    } else {
        match scope_find(scopes.last(), name) {
            Some(t) => Some(t),
            None => env_find(scopes.drop_last(), name),
        }
    }
}

/// `scopes` with `name` bound to `t` in the innermost scope.
pub open spec fn env_define(scopes: Seq<Scope>, name: Seq<char>, t: TypeView) -> Seq<Scope> {
    scopes.drop_last().push(scopes.last().push((name, t)))
}

pub open spec fn scope_model(scope: Vec<(String, Type)>) -> Scope {
    scope@.map_values(|b: (String, Type)| (b.0@, b.1@))
}

/// A stack of scopes, each binding names to types; the last scope is the innermost.
#[derive(Debug)]
pub struct TypeEnvironment {
    scopes: Vec<Vec<(String, Type)>>,
}

impl TypeEnvironment {
    /// The scopes, outermost first.
    pub closed spec fn model(&self) -> Seq<Scope> {
        self.scopes@.map_values(|s: Vec<(String, Type)>| scope_model(s))
    }

    /// What `name` resolves to.
    pub open spec fn resolve(&self, name: Seq<char>) -> Option<TypeView> {
        env_find(self.model(), name)
    }

    /// One empty scope.
    pub fn new() -> (r: TypeEnvironment)
        ensures
            r.model() == seq![Scope::empty()],
    {
        let mut scopes: Vec<Vec<(String, Type)>> = Vec::new();
        scopes.push(Vec::new());
        let r = TypeEnvironment { scopes };
        assert(scope_model(r.scopes@[0]) =~= Scope::empty());
        assert(r.model() =~= seq![Scope::empty()]);
        r
    }

    /// Opens an empty innermost scope.
    pub fn enter_scope(&mut self)
        ensures
            final(self).model() == old(self).model().push(Scope::empty()),
    {
        self.scopes.push(Vec::new());
        assert(scope_model(self.scopes@.last()) =~= Scope::empty());
        assert(self.model() =~= old(self).model().push(Scope::empty()));
    }

    /// Closes the innermost scope; the outermost one is never closed.
    pub fn exit_scope(&mut self)
        ensures
            old(self).model().len() > 1 ==> final(self).model() == old(self).model().drop_last(),
            old(self).model().len() <= 1 ==> final(self).model() == old(self).model(),
    {
        if self.scopes.len() > 1 {
            self.scopes.pop();
            assert(self.model() =~= old(self).model().drop_last());
        }
    }

    /// Binds `name` to `typ` in the innermost scope; a later binding of the
    /// same name in that scope shadows an earlier one.
    pub fn define(&mut self, name: String, typ: Type)
        requires
            old(self).model().len() > 0,
        ensures
            final(self).model() == env_define(old(self).model(), name@, typ@),
    {
        let ghost entry = (name@, typ@);
        let mut scope = self.scopes.pop().unwrap();
        let ghost old_scope = scope;
        scope.push((name, typ));
        proof {
            assert(scope_model(scope) =~= scope_model(old_scope).push(entry));
        }
        self.scopes.push(scope);
        assert(self.model() =~= env_define(old(self).model(), entry.0, entry.1));
    }

    /// The type bound to `name` in the innermost scope that binds it.
    pub fn lookup(&self, name: &str) -> (r: Option<&Type>)
        ensures
            r matches Some(t) ==> self.resolve(name@) == Some(t@),
            r is None ==> self.resolve(name@) is None,
    {
        let ghost m = self.model();
        let mut i = self.scopes.len();
        assert(m.subrange(0, i as int) =~= m);
        while i > 0
            invariant
                i <= self.scopes.len(),
                m == self.model(),
                env_find(m, name@) == env_find(m.subrange(0, i as int), name@),
            decreases i,
        {
            let ghost sub = m.subrange(0, i as int);
            assert(sub.drop_last() =~= m.subrange(0, i - 1));
            assert(sub.last() == scope_model(self.scopes@[i - 1]));
            match scope_lookup(&self.scopes[i - 1], name) {
                Some(t) => {
                    return Some(t);
                },
                None => {},
            }
            i = i - 1;
        }
        None
    }
}

/// The latest binding of `name` in one scope.
fn scope_lookup<'a>(scope: &'a Vec<(String, Type)>, name: &str) -> (r: Option<&'a Type>)
    ensures
        r matches Some(t) ==> scope_find(scope_model(*scope), name@) == Some(t@),
        r is None ==> scope_find(scope_model(*scope), name@) is None,
{
    let ghost m = scope_model(*scope);
    let mut j = scope.len();
    assert(m.subrange(0, j as int) =~= m);
    while j > 0
        invariant
            j <= scope.len(),
            m == scope_model(*scope),
            scope_find(m, name@) == scope_find(m.subrange(0, j as int), name@),
        decreases j,
    {
        let ghost sub = m.subrange(0, j as int);
        assert(sub.drop_last() =~= m.subrange(0, j - 1));
        assert(sub.last() == (scope@[j - 1].0@, scope@[j - 1].1@));
        if str_eq(scope[j - 1].0.as_str(), name) {
            return Some(&scope[j - 1].1);
        }
        j = j - 1;
    }
    None
}

/// Whether two strings hold the same characters.
pub fn str_eq(a: &str, b: &str) -> (r: bool)
    ensures
        r == (a@ == b@),
{
    let n = a.unicode_len();
    if n != b.unicode_len() {
        return false;
    }
    let mut i: usize = 0;
    while i < n
        invariant
            n == a@.len() == b@.len(),
            i <= n,
            forall|m: int| 0 <= m < i ==> a@[m] == b@[m],
        decreases n - i,
    {
        if a.get_char(i) != b.get_char(i) {
            return false;
        }
        i = i + 1;
    }
    assert(a@ =~= b@);
    true
}

} // verus!
