//! What lowering knows of names: the lexical scopes of the function being
//! lowered, the scope table that numbers the incarnations of each base
//! name, and the sorted list of live names that a call spills.

use crate::ast::Ty;
use crate::blocks::Error;
use crate::names::{is_reserved, is_reserved_name, scoped, scoped_name};
use vstd::hash_map::StringHashMap;
use vstd::prelude::*;
use vstd::string::*;

verus! {

/// One lexical scope: the declarations made in it, oldest first.
pub type ScopeV = Seq<(Seq<char>, Ty)>;

/// The type under which `name` was last declared among the first `n`
/// declarations of `scope`.
pub open spec fn scope_find_upto(scope: ScopeV, name: Seq<char>, n: int) -> Option<Ty>
    decreases n,
{
    if n <= 0 {
        None
    } else if scope[n - 1].0 == name {
        Some(scope[n - 1].1)
    } else {
        scope_find_upto(scope, name, n - 1)
    }
}

/// The type under which `name` was last declared in `scope`.
pub open spec fn scope_find(scope: ScopeV, name: Seq<char>) -> Option<Ty> {
    scope_find_upto(scope, name, scope.len() as int)
}

/// The type of `name` in the innermost of the first `n` scopes that
/// declares it.
pub open spec fn cvar_lookup_upto(cvars: Seq<ScopeV>, name: Seq<char>, n: int) -> Option<Ty>
    decreases n,
{
    if n <= 0 {
        None
    } else {
        match scope_find(cvars[n - 1], name) {
            Some(t) => Some(t),
            None => cvar_lookup_upto(cvars, name, n - 1),
        }
    }
}

/// The type of `name` in the innermost scope that declares it.
pub open spec fn cvar_lookup_spec(cvars: Seq<ScopeV>, name: Seq<char>) -> Option<Ty> {
    cvar_lookup_upto(cvars, name, cvars.len() as int)
}

/// Whether the innermost scope declares `name`.
pub open spec fn cur_scope_has(cvars: Seq<ScopeV>, name: Seq<char>) -> bool {
    cvars.len() > 0 && scope_find(cvars.last(), name) is Some
}

/// `cvars` after `name` is declared with type `ty` in the innermost scope.
pub open spec fn cvar_declare_spec(cvars: Seq<ScopeV>, name: Seq<char>, ty: Ty) -> Seq<ScopeV> {
    cvars.update(cvars.len() - 1, cvars.last().push((name, ty)))
}

/// The type under which `name` was last declared in `scope`.
pub fn scope_lookup(scope: &Vec<(String, Ty)>, name: &String) -> (r: Option<Ty>)
    ensures
        r == scope_find(scope.deep_view(), name@),
{
    let mut i: usize = scope.len();
    while i > 0
        invariant
            i <= scope.len(),
            scope_find(scope.deep_view(), name@) == scope_find_upto(
                scope.deep_view(),
                name@,
                i as int,
            ),
        decreases i,
    {
        i -= 1;
        if scope[i].0 == *name {
            return Some(scope[i].1);
        }
    }
    None
}

/// The type of `name` in the innermost scope that declares it.
pub fn cvar_lookup(cvars: &Vec<Vec<(String, Ty)>>, name: &String) -> (r: Option<Ty>)
    ensures
        r == cvar_lookup_spec(cvars.deep_view(), name@),
{
    let mut i: usize = cvars.len();
    while i > 0
        invariant
            i <= cvars.len(),
            cvar_lookup_spec(cvars.deep_view(), name@) == cvar_lookup_upto(
                cvars.deep_view(),
                name@,
                i as int,
            ),
        decreases i,
    {
        i -= 1;
        match scope_lookup(&cvars[i], name) {
            Some(t) => {
                return Some(t);
            },
            None => {},
        }
    }
    None
}

/// Whether the innermost scope declares `name`.
pub fn cvar_cur_scope_find(cvars: &Vec<Vec<(String, Ty)>>, name: &String) -> (r: bool)
    ensures
        r == cur_scope_has(cvars.deep_view(), name@),
{
    if cvars.len() == 0 {
        false
    } else {
        scope_lookup(&cvars[cvars.len() - 1], name).is_some()
    }
}

/// Declares `name` with type `ty` in the innermost scope.
pub fn cvar_declare(cvars: &mut Vec<Vec<(String, Ty)>>, name: String, ty: Ty)
    requires
        old(cvars).len() > 0,
    ensures
        final(cvars).deep_view() == cvar_declare_spec(old(cvars).deep_view(), name@, ty),
{
    let k = cvars.len() - 1;
    cvars[k].push((name, ty));
    assert(cvars.deep_view() =~~= cvar_declare_spec(old(cvars).deep_view(), name@, ty));
}

/// The scope table: for each base name, how many earlier incarnations it
/// has, and whether the next declaration starts a new one.
pub type TableV = Map<Seq<char>, (usize, bool)>;

/// The name to emit for `var`, and the scope table afterwards.
///
/// A reserved name stays as it is. A reference to an unknown name fails. A
/// declaration of an unknown name starts at index 0. A declaration of a
/// name whose entry is pending moves to the next index; any other use
/// keeps the current index.
pub open spec fn unroll_scope(is_decl: bool, var: Seq<char>, table: TableV) -> Result<
    (Seq<char>, TableV),
    Error,
> {
    if is_reserved(var) {
        Ok((var, table))
    } else if !table.contains_key(var) {
        if is_decl {
            Ok((scoped_name(var, 0), table.insert(var, (0usize, false))))
        } else {
            Err(Error::UndefinedBeforeUse)
        }
    } else {
        let (scope, pending) = table[var];
        if pending && is_decl {
            if scope == usize::MAX {
                Err(Error::Unsupported)
            } else {
                Ok(
                    (
                        scoped_name(var, (scope + 1) as nat),
                        table.insert(var, ((scope + 1) as usize, false)),
                    ),
                )
            }
        } else {
            Ok((scoped_name(var, scope as nat), table))
        }
    }
}

/// Scope-qualifies `var`: as a declaration when `is_decl`, else as a
/// reference.
pub fn bl_gen_unroll_scope(
    is_decl: bool,
    var: &str,
    var_scope_info: &mut StringHashMap<(usize, bool)>,
) -> (r: Result<String, Error>)
    ensures
        match r {
            Ok(name) => unroll_scope(is_decl, var@, old(var_scope_info)@) == Ok::<
                (Seq<char>, TableV),
                Error,
            >((name@, final(var_scope_info)@)),
            Err(e) => unroll_scope(is_decl, var@, old(var_scope_info)@) == Err::<
                (Seq<char>, TableV),
                Error,
            >(e) && final(var_scope_info)@ == old(var_scope_info)@,
        },
{
    if is_reserved_name(var) {
        return Ok(String::from_str(var));
    }
    let entry: Option<(usize, bool)> = match var_scope_info.get(var) {
        Some(p) => Some(*p),
        None => None,
    };
    match entry {
        None => {
            if !is_decl {
                Err(Error::UndefinedBeforeUse)
            } else {
                var_scope_info.insert(String::from_str(var), (0, false));
                Ok(scoped(var, 0))
            }
        },
        Some((scope, pending)) => {
            if pending && is_decl {
                if scope == usize::MAX {
                    Err(Error::Unsupported)
                } else {
                    var_scope_info.insert(String::from_str(var), (scope + 1, false));
                    Ok(scoped(var, scope + 1))
                }
            } else {
                Ok(scoped(var, scope))
            }
        },
    }
}

/// A reference after a declaration resolves to the name that the
/// declaration emitted, and leaves the scope table as the declaration
/// left it.
pub proof fn lemma_reference_follows_declaration(var: Seq<char>, table: TableV)
    requires
        unroll_scope(true, var, table) is Ok,
    ensures
        unroll_scope(false, var, unroll_scope(true, var, table)->Ok_0.1) == unroll_scope(
            true,
            var,
            table,
        ),
{
    let t1 = unroll_scope(true, var, table)->Ok_0.1;
    if !is_reserved(var) {
        if table.contains_key(var) {
            let (scope, pending) = table[var];
            if pending {
                assert(t1 =~= table.insert(var, ((scope + 1) as usize, false)));
            } else {
                assert(t1 =~= table);
            }
        } else {
            assert(t1 =~= table.insert(var, (0usize, false)));
        }
    }
}

/// A reference never changes the scope table, and two references in a row
/// give the same name.
pub proof fn lemma_reference_is_stable(var: Seq<char>, table: TableV)
    requires
        unroll_scope(false, var, table) is Ok,
    ensures
        unroll_scope(false, var, table)->Ok_0.1 == table,
        !is_reserved(var) ==> unroll_scope(false, var, table)->Ok_0.0 == scoped_name(
            var,
            table[var].0 as nat,
        ),
        is_reserved(var) ==> unroll_scope(false, var, table)->Ok_0.0 == var,
{
}

/// Whether `a` comes before `b` in the order of their characters, a proper
/// prefix first.
pub open spec fn name_lt(a: Seq<char>, b: Seq<char>) -> bool
    decreases a.len(),
{
    if b.len() == 0 {
        false
    } else if a.len() == 0 {
        true
    } else if a[0] != b[0] {
        (a[0] as u32) < (b[0] as u32)
    } else {
        name_lt(a.drop_first(), b.drop_first())
    }
}

/// `name_lt` on what follows the first `i` characters, which are the same
/// in both.
pub open spec fn name_lt_from(a: Seq<char>, b: Seq<char>, i: int) -> bool
    decreases a.len() - i,
{
    if i >= b.len() {
        false
    } else if i >= a.len() {
        true
    } else if a[i] != b[i] {
        (a[i] as u32) < (b[i] as u32)
    } else {
        name_lt_from(a, b, i + 1)
    }
}

proof fn lemma_name_lt_from(a: Seq<char>, b: Seq<char>, i: int)
    requires
        0 <= i <= a.len(),
        i <= b.len(),
    ensures
        name_lt_from(a, b, i) == name_lt(a.subrange(i, a.len() as int), b.subrange(i, b.len() as int)),
    decreases a.len() - i,
{
    let sa = a.subrange(i, a.len() as int);
    let sb = b.subrange(i, b.len() as int);
    if i >= b.len() {
    } else if i >= a.len() {
    } else {
        assert(sa[0] == a[i]);
        assert(sb[0] == b[i]);
        if a[i] == b[i] {
            lemma_name_lt_from(a, b, i + 1);
            assert(sa.drop_first() =~= a.subrange(i + 1, a.len() as int));
            assert(sb.drop_first() =~= b.subrange(i + 1, b.len() as int));
        }
    }
}

/// Whether `a` comes before `b` in the order of their characters.
pub fn name_before(a: &str, b: &str) -> (r: bool)
    ensures
        r == name_lt(a@, b@),
{
    let la = a.unicode_len();
    let lb = b.unicode_len();
    let mut i: usize = 0;
    proof {
        lemma_name_lt_from(a@, b@, 0);
        assert(a@.subrange(0, a@.len() as int) =~= a@);
        assert(b@.subrange(0, b@.len() as int) =~= b@);
    }
    loop
        invariant
            i <= la,
            i <= lb,
            la == a@.len(),
            lb == b@.len(),
            name_lt(a@, b@) == name_lt_from(a@, b@, i as int),
        decreases la - i,
    {
        if i >= lb {
            return false;
        }
        if i >= la {
            return true;
        }
        let ca = a.get_char(i);
        let cb = b.get_char(i);
        if ca != cb {
            return (ca as u32) < (cb as u32);
        }
        i += 1;
    }
}

/// The first position from `i` on whose name does not come before `x`.
pub open spec fn insert_pos(names: Seq<Seq<char>>, x: Seq<char>, i: int) -> int
    decreases names.len() - i,
{
    if i >= names.len() {
        i
    } else if name_lt(names[i], x) {
        insert_pos(names, x, i + 1)
    } else {
        i
    }
}

/// `names` with `x` put in before the first name that does not come before
/// it, unless that name is `x` itself.
pub open spec fn sorted_insert(names: Seq<Seq<char>>, x: Seq<char>) -> Seq<Seq<char>> {
    let p = insert_pos(names, x, 0);
    if p < names.len() && names[p] == x {
        names
    } else {
        names.insert(p, x)
    }
}

proof fn lemma_insert_pos_bounds(names: Seq<Seq<char>>, x: Seq<char>, i: int)
    requires
        0 <= i <= names.len(),
    ensures
        i <= insert_pos(names, x, i) <= names.len(),
    decreases names.len() - i,
{
    if i < names.len() && name_lt(names[i], x) {
        lemma_insert_pos_bounds(names, x, i + 1);
    }
}

/// Puts `x` into the sorted list `names`, once.
pub fn insert_name(names: &mut Vec<String>, x: String)
    ensures
        final(names).deep_view() == sorted_insert(old(names).deep_view(), x@),
{
    let mut i: usize = 0;
    while i < names.len() && name_before(names[i].as_str(), x.as_str())
        invariant
            i <= names.len(),
            *names == *old(names),
            insert_pos(names.deep_view(), x@, 0) == insert_pos(names.deep_view(), x@, i as int),
        decreases names.len() - i,
    {
        i += 1;
    }
    if i < names.len() && names[i] == x {
        return ;
    }
    names.insert(i, x);
    assert(names.deep_view() =~= old(names).deep_view().insert(i as int, x@));
}

/// The names that the first `i` declarations of `scope` add to `acc`.
pub open spec fn scope_names_upto(acc: Seq<Seq<char>>, scope: ScopeV, i: int) -> Seq<Seq<char>>
    decreases i,
{
    if i <= 0 {
        acc
    } else {
        sorted_insert(scope_names_upto(acc, scope, i - 1), scope[i - 1].0)
    }
}

/// The names that the first `n` scopes of `cvars` declare, sorted, each
/// once.
pub open spec fn live_names_upto(cvars: Seq<ScopeV>, n: int) -> Seq<Seq<char>>
    decreases n,
{
    if n <= 0 {
        Seq::empty()
    } else {
        scope_names_upto(live_names_upto(cvars, n - 1), cvars[n - 1], cvars[n - 1].len() as int)
    }
}

/// The names declared in any scope of the function, sorted, each once.
pub open spec fn live_names(cvars: Seq<ScopeV>) -> Seq<Seq<char>> {
    live_names_upto(cvars, cvars.len() as int)
}

/// The names declared in any scope of the function, sorted, each once.
pub fn collect_live_names(cvars: &Vec<Vec<(String, Ty)>>) -> (names: Vec<String>)
    ensures
        names.deep_view() == live_names(cvars.deep_view()),
{
    let mut names: Vec<String> = Vec::new();
    let mut n: usize = 0;
    assert(names.deep_view() =~= Seq::empty());
    while n < cvars.len()
        invariant
            n <= cvars.len(),
            names.deep_view() == live_names_upto(cvars.deep_view(), n as int),
        decreases cvars.len() - n,
    {
        let scope = &cvars[n];
        let mut i: usize = 0;
        while i < scope.len()
            invariant
                n < cvars.len(),
                *scope == cvars@[n as int],
                i <= scope.len(),
                names.deep_view() == scope_names_upto(
                    live_names_upto(cvars.deep_view(), n as int),
                    scope.deep_view(),
                    i as int,
                ),
            decreases scope.len() - i,
        {
            insert_name(&mut names, scope[i].0.clone());
            i += 1;
        }
        n += 1;
    }
    names
}

} // verus!
