//! The scope table shared by the compiler and the disassembler: variable
//! names in slot order, and the names the host declares as globals.
//!
//! Slot indices are allocated monotonically and never reused within a pass.
//! When one name is bound twice, a lookup resolves to the newest slot.

use vstd::prelude::*;

use crate::values::Value;

verus! {

/// The mathematical model of a `Context`.
pub ghost struct CtxView {
    /// Bound variable names, indexed by slot.
    pub vars: Seq<Seq<char>>,
    /// Names known as globals, in declaration order.
    pub globals: Seq<Seq<char>>,
}

/// The slot index a name resolves to: the newest binding of that name, if
/// any.
pub open spec fn var_lookup(vars: Seq<Seq<char>>, name: Seq<char>) -> Option<int>
    decreases vars.len(),
{
    if vars.len() == 0 {
        None
    } else if vars.last() == name {
        Some(vars.len() - 1)
    } else {
        var_lookup(vars.drop_last(), name)
    }
}

/// `var_lookup` finds the largest slot bound to `name`, and finds none
/// exactly when no slot is bound to it.
pub proof fn lemma_var_lookup(vars: Seq<Seq<char>>, name: Seq<char>)
    ensures
        match var_lookup(vars, name) {
            Some(i) => 0 <= i < vars.len() && vars[i] == name && (forall|j: int|
                i < j < vars.len() ==> vars[j] != name),
            None => forall|j: int| 0 <= j < vars.len() ==> vars[j] != name,
        },
    decreases vars.len(),
{
    if vars.len() > 0 && vars.last() != name {
        lemma_var_lookup(vars.drop_last(), name);
        assert forall|j: int| 0 <= j < vars.len() - 1 implies vars.drop_last()[j] == vars[j] by {
            assert(vars.drop_last() == vars.subrange(0, vars.len() - 1));
        }
    }
}

#[derive(Clone)]
pub struct Context {
    vars: Vec<String>,
    globals: Vec<String>,
}

impl View for Context {
    type V = CtxView;

    closed spec fn view(&self) -> CtxView {
        CtxView {
            vars: self.vars@.map_values(|s: String| s@),
            globals: self.globals@.map_values(|s: String| s@),
        }
    }
}

impl Context {
    /// An empty scope table: no bindings, no known globals.
    pub fn new() -> (r: Context)
        ensures
            r@.vars == Seq::<Seq<char>>::empty(),
            r@.globals == Seq::<Seq<char>>::empty(),
    {
        let r = Context { vars: Vec::new(), globals: Vec::new() };
        proof {
            assert(r@.vars =~= Seq::<Seq<char>>::empty());
            assert(r@.globals =~= Seq::<Seq<char>>::empty());
        }
        r
    }

    /// Declares `name` as a known global for identifier diagnostics.
    pub fn add_global(&mut self, name: String)
        ensures
            final(self)@.globals == old(self)@.globals.push(name@),
            final(self)@.vars == old(self)@.vars,
    {
        self.globals.push(name);
        proof {
            assert(self@.globals =~= old(self)@.globals.push(name@));
            assert(self@.vars =~= old(self)@.vars);
        }
    }

    /// Allocates a new, unique, monotonically increasing slot for `name` and
    /// returns its index. The optional initial value is part of the
    /// collaborator interface but plays no role in the slot table itself.
    pub fn define_variable(&mut self, name: String, _value: Option<Value>) -> (idx: usize)
        ensures
            final(self)@.vars == old(self)@.vars.push(name@),
            final(self)@.globals == old(self)@.globals,
            idx == old(self)@.vars.len(),
    {
        let idx = self.vars.len();
        self.vars.push(name);
        proof {
            assert(self@.vars =~= old(self)@.vars.push(name@));
            assert(self@.globals =~= old(self)@.globals);
        }
        idx
    }

    /// The slot `name` resolves to, newest binding first; `None` when the
    /// name is unbound.
    pub fn get_variable_index(&self, name: &String) -> (r: Option<usize>)
        ensures
            match var_lookup(self@.vars, name@) {
                Some(i) => r == Some(i as usize),
                None => r is None,
            },
    {
        proof {
            lemma_var_lookup(self@.vars, name@);
        }
        let mut j: usize = self.vars.len();
        while j > 0
            invariant
                j <= self.vars.len(),
                forall|k: int| j <= k < self@.vars.len() ==> self@.vars[k] != name@,
            decreases j,
        {
            if self.vars[j - 1].eq(name) {
                proof {
                    lemma_var_lookup(self@.vars, name@);
                    assert(self@.vars[j - 1] == name@);
                }
                return Some(j - 1);
            }
            proof {
                assert(self@.vars[j - 1] != name@);
            }
            j = j - 1;
        }
        None
    }

    /// Whether the host has declared `name` as a global.
    pub fn is_global_variable(&self, name: &String) -> (r: bool)
        ensures
            r == self@.globals.contains(name@),
    {
        let mut j: usize = 0;
        while j < self.globals.len()
            invariant
                j <= self.globals.len(),
                forall|k: int| 0 <= k < j ==> self@.globals[k] != name@,
            decreases self.globals.len() - j,
        {
            if self.globals[j].eq(name) {
                proof {
                    assert(self@.globals[j as int] == name@);
                }
                return true;
            }
            proof {
                assert(self@.globals[j as int] != name@);
            }
            j = j + 1;
        }
        false
    }

    /// The number of slots allocated so far.
    pub fn variable_count(&self) -> (n: usize)
        ensures
            n == self@.vars.len(),
    {
        self.vars.len()
    }

    /// Rolls the slot table back to its first `len` slots, discarding newer
    /// ones. The compiler's error paths use this so that a failed step
    /// leaves no trace in the scope table.
    pub fn rollback_variables(&mut self, len: usize)
        ensures
            len <= old(self)@.vars.len() ==> final(self)@.vars == old(self)@.vars.subrange(
                0,
                len as int,
            ),
            len > old(self)@.vars.len() ==> final(self)@.vars == old(self)@.vars,
            final(self)@.globals == old(self)@.globals,
    {
        self.vars.truncate(len);
        proof {
            if len <= old(self).vars@.len() {
                assert(self@.vars =~= old(self)@.vars.subrange(0, len as int));
            } else {
                assert(self@.vars =~= old(self)@.vars);
            }
            assert(self@.globals =~= old(self)@.globals);
        }
    }

    /// The name bound to a slot, for disassembly; `None` for a slot that was
    /// never allocated.
    pub fn get_variable_name(&self, index: usize) -> (r: Option<String>)
        ensures
            match r {
                Some(s) => index < self@.vars.len() && s@ == self@.vars[index as int],
                None => index >= self@.vars.len(),
            },
    {
        if index < self.vars.len() {
            Some(self.vars[index].clone())
        } else {
            None
        }
    }
}

} // verus!
