//! Types of the language and the unification table that infers them.

use vstd::prelude::*;
use vstd::string::StringExecFns;
use std::collections::HashMap;

verus! {

/// Handle of one type variable of a [`Machine`].
#[derive(Debug, Clone, Copy, PartialEq, Eq, Hash, Structural)]
pub struct TypeId(pub usize);

/// A fully known type.
#[derive(Debug)]
pub enum Type {
    U8,
    U16,
    U32,
    U64,
    I8,
    I16,
    I32,
    I64,
    F32,
    F64,
    Char,
    Bool,
    Ref(Box<Type>),
    RefMut(Box<Type>),
}

/// Width and signedness of an integer type.
#[derive(Debug, Clone, Copy, PartialEq, Eq, Structural)]
pub enum Integer {
    U8,
    U16,
    U32,
    U64,
    I8,
    I16,
    I32,
    I64,
}

/// Width of a type with a fractional part.
#[derive(Debug, Clone, Copy, PartialEq, Eq, Structural)]
pub enum Float {
    F32,
    F64,
}

/// What is known so far of one type variable.
#[derive(Debug, Clone, Copy, PartialEq, Eq, Structural)]
pub enum TypeInfo {
    Integer(Option<Integer>),
    Float(Option<Float>),
    Char,
    Bool,
    RefTo(TypeId),
    RefMutTo(TypeId),
    Ref(TypeId),
    Unknown,
}

/// The table of type variables, each under the number of its handle.
/// The variable with handle `TypeId(i)` is the one that was inserted
/// after `i` others. The map is keyed by that number and not by the
/// handle: what Verus knows of the contents of a hash map rests on a
/// model of its keys that vstd has for integers, and not for a type whose
/// hash `derive` wrote.
#[derive(Debug)]
pub struct Machine {
    pub id_counter: usize,
    pub vars: HashMap<usize, TypeInfo>,
}

/// What unifying two variables gives: the table after it, and whether the
/// two agree. A variable that stands for another is followed; an unknown
/// variable comes to stand for the other; booleans agree, and so do
/// numbers of the same known width; a number of known width comes to stand
/// for one of unknown width; references agree when what they refer to
/// does. Everything else is a conflict, and so is a chain of more than
/// `fuel` variables that stand for one another.
pub open spec fn unified(vars: Map<usize, TypeInfo>, a: TypeId, b: TypeId, fuel: nat) -> (
    Map<usize, TypeInfo>,
    bool,
)
    decreases fuel,
{
    if fuel == 0 || !vars.contains_key(a.0) || !vars.contains_key(b.0) {
        (vars, false)
    } else {
        let left = vars[a.0];
        let right = vars[b.0];
        let rest = (fuel - 1) as nat;
        if let TypeInfo::Ref(x) = left {
            unified(vars, x, b, rest)
        } else if let TypeInfo::Ref(y) = right {
            unified(vars, a, y, rest)
        } else if left is Unknown {
            (vars.insert(a.0, TypeInfo::Ref(b)), true)
        } else if right is Unknown {
            (vars.insert(b.0, TypeInfo::Ref(a)), true)
        } else {
            match (left, right) {
                (TypeInfo::Bool, TypeInfo::Bool) => (vars, true),
                (TypeInfo::Integer(Some(x)), TypeInfo::Integer(Some(y))) => (vars, x == y),
                (TypeInfo::Float(Some(x)), TypeInfo::Float(Some(y))) => (vars, x == y),
                (TypeInfo::Integer(Some(_)), TypeInfo::Integer(None)) => (
                    vars.insert(a.0, TypeInfo::Ref(b)),
                    true,
                ),
                (TypeInfo::Integer(None), TypeInfo::Integer(Some(_))) => (
                    vars.insert(b.0, TypeInfo::Ref(a)),
                    true,
                ),
                (TypeInfo::Float(Some(_)), TypeInfo::Float(None)) => (
                    vars.insert(a.0, TypeInfo::Ref(b)),
                    true,
                ),
                (TypeInfo::Float(None), TypeInfo::Float(Some(_))) => (
                    vars.insert(b.0, TypeInfo::Ref(a)),
                    true,
                ),
                (TypeInfo::RefTo(x), TypeInfo::RefTo(y)) => unified(vars, x, y, rest),
                (TypeInfo::RefMutTo(x), TypeInfo::RefMutTo(y)) => unified(vars, x, y, rest),
                _ => (vars, false),
            }
        }
    }
}

/// The type that a variable stands for, if the table tells: a number of
/// unknown width is a 32-bit signed integer or a 64-bit one with a
/// fractional part; an unknown variable has no type, nor has a chain of
/// more than `fuel` variables.
pub open spec fn reconstructed(vars: Map<usize, TypeInfo>, id: TypeId, fuel: nat) -> Option<Type>
    decreases fuel,
{
    if fuel == 0 || !vars.contains_key(id.0) {
        None
    } else {
        let rest = (fuel - 1) as nat;
        match vars[id.0] {
            TypeInfo::Unknown => None,
            TypeInfo::Ref(x) => reconstructed(vars, x, rest),
            TypeInfo::Bool => Some(Type::Bool),
            TypeInfo::Char => Some(Type::Char),
            TypeInfo::RefTo(x) => match reconstructed(vars, x, rest) {
                Some(t) => Some(Type::Ref(Box::new(t))),
                None => None,
            },
            TypeInfo::RefMutTo(x) => match reconstructed(vars, x, rest) {
                Some(t) => Some(Type::RefMut(Box::new(t))),
                None => None,
            },
            TypeInfo::Integer(Some(i)) => Some(
                match i {
                    Integer::U8 => Type::U8,
                    Integer::U16 => Type::U16,
                    Integer::U32 => Type::U32,
                    Integer::U64 => Type::U64,
                    Integer::I8 => Type::I8,
                    Integer::I16 => Type::I16,
                    Integer::I32 => Type::I32,
                    Integer::I64 => Type::I64,
                },
            ),
            TypeInfo::Float(Some(f)) => Some(
                match f {
                    Float::F32 => Type::F32,
                    Float::F64 => Type::F64,
                },
            ),
            TypeInfo::Integer(None) => Some(Type::I32),
            TypeInfo::Float(None) => Some(Type::F64),
        }
    }
}

/// Unifying adds no variable and drops none.
pub proof fn lemma_unified_dom(vars: Map<usize, TypeInfo>, a: TypeId, b: TypeId, fuel: nat)
    ensures
        unified(vars, a, b, fuel).0.dom() == vars.dom(),
    decreases fuel,
{
    if fuel == 0 || !vars.contains_key(a.0) || !vars.contains_key(b.0) {
    } else {
        let left = vars[a.0];
        let right = vars[b.0];
        let rest = (fuel - 1) as nat;
        assert(vars.insert(a.0, TypeInfo::Ref(b)).dom() =~= vars.dom());
        assert(vars.insert(b.0, TypeInfo::Ref(a)).dom() =~= vars.dom());
        if let TypeInfo::Ref(x) = left {
            lemma_unified_dom(vars, x, b, rest);
        } else if let TypeInfo::Ref(y) = right {
            lemma_unified_dom(vars, a, y, rest);
        } else {
            match (left, right) {
                (TypeInfo::RefTo(x), TypeInfo::RefTo(y)) => {
                    lemma_unified_dom(vars, x, y, rest);
                },
                (TypeInfo::RefMutTo(x), TypeInfo::RefMutTo(y)) => {
                    lemma_unified_dom(vars, x, y, rest);
                },
                _ => {},
            }
        }
    }
}

impl Machine {
    /// The table holds the variables that were handed out, and no other.
    pub open spec fn wf(&self) -> bool {
        forall|k: usize| self.vars@.contains_key(k) <==> k < self.id_counter
    }

    pub fn new() -> (machine: Machine)
        ensures
            machine.wf(),
            machine.id_counter == 0,
            machine.vars@ == Map::<usize, TypeInfo>::empty(),
    {
        Machine { id_counter: 0, vars: HashMap::new() }
    }

    pub fn insert(&mut self, info: TypeInfo) -> (id: TypeId)
        requires
            old(self).wf(),
            old(self).id_counter < usize::MAX,
        ensures
            final(self).wf(),
            id.0 == old(self).id_counter,
            final(self).id_counter == old(self).id_counter + 1,
            final(self).vars@ == old(self).vars@.insert(id.0, info),
    {
        broadcast use vstd::std_specs::hash::group_hash_axioms;

        let id = TypeId(self.id_counter);
        self.id_counter = self.id_counter + 1;
        self.vars.insert(id.0, info);
        id
    }

    fn info(&self, id: TypeId) -> (found: Option<TypeInfo>)
        ensures
            match found {
                Some(info) => self.vars@.contains_key(id.0) && self.vars@[id.0] == info,
                None => !self.vars@.contains_key(id.0),
            },
    {
        broadcast use vstd::std_specs::hash::group_hash_axioms;

        match self.vars.get(&id.0) {
            Some(info) => Some(*info),
            None => None,
        }
    }

    fn stand_for(&mut self, a: TypeId, b: TypeId)
        ensures
            final(self).vars@ == old(self).vars@.insert(a.0, TypeInfo::Ref(b)),
            final(self).id_counter == old(self).id_counter,
    {
        broadcast use vstd::std_specs::hash::group_hash_axioms;

        self.vars.insert(a.0, TypeInfo::Ref(b));
    }

    fn unify_within(&mut self, a: TypeId, b: TypeId, fuel: usize) -> (agreed: bool)
        requires
            old(self).wf(),
        ensures
            final(self).wf(),
            final(self).id_counter == old(self).id_counter,
            (final(self).vars@, agreed) == unified(old(self).vars@, a, b, fuel as nat),
        decreases fuel,
    {
        proof {
            lemma_unified_dom(self.vars@, a, b, fuel as nat);
        }
        if fuel == 0 {
            return false;
        }
        let left = match self.info(a) {
            Some(info) => info,
            None => {
                return false;
            },
        };
        let right = match self.info(b) {
            Some(info) => info,
            None => {
                return false;
            },
        };
        if let TypeInfo::Ref(x) = left {
            return self.unify_within(x, b, fuel - 1);
        }
        if let TypeInfo::Ref(y) = right {
            return self.unify_within(a, y, fuel - 1);
        }
        if let TypeInfo::Unknown = left {
            self.stand_for(a, b);
            return true;
        }
        if let TypeInfo::Unknown = right {
            self.stand_for(b, a);
            return true;
        }
        match (left, right) {
            (TypeInfo::Bool, TypeInfo::Bool) => true,
            (TypeInfo::Integer(Some(x)), TypeInfo::Integer(Some(y))) => x == y,
            (TypeInfo::Float(Some(x)), TypeInfo::Float(Some(y))) => x == y,
            (TypeInfo::Integer(Some(_)), TypeInfo::Integer(None)) => {
                self.stand_for(a, b);
                true
            },
            (TypeInfo::Integer(None), TypeInfo::Integer(Some(_))) => {
                self.stand_for(b, a);
                true
            },
            (TypeInfo::Float(Some(_)), TypeInfo::Float(None)) => {
                self.stand_for(a, b);
                true
            },
            (TypeInfo::Float(None), TypeInfo::Float(Some(_))) => {
                self.stand_for(b, a);
                true
            },
            (TypeInfo::RefTo(x), TypeInfo::RefTo(y)) => self.unify_within(x, y, fuel - 1),
            (TypeInfo::RefMutTo(x), TypeInfo::RefMutTo(y)) => self.unify_within(x, y, fuel - 1),
            _ => false,
        }
    }

    /// Unifies two variables. Chains of variables are followed as far as
    /// the table has variables.
    pub fn unify(&mut self, a: TypeId, b: TypeId) -> (r: Result<(), String>)
        requires
            old(self).wf(),
        ensures
            final(self).wf(),
            final(self).id_counter == old(self).id_counter,
            final(self).vars@ == unified(
                old(self).vars@,
                a,
                b,
                old(self).id_counter as nat,
            ).0,
            r is Ok == unified(old(self).vars@, a, b, old(self).id_counter as nat).1,
    {
        let fuel = self.id_counter;
        if self.unify_within(a, b, fuel) {
            Ok(())
        } else {
            Err(String::from_str("conflict between two types"))
        }
    }

    fn reconstruct_within(&self, id: TypeId, fuel: usize) -> (r: Option<Type>)
        ensures
            r == reconstructed(self.vars@, id, fuel as nat),
        decreases fuel,
    {
        if fuel == 0 {
            return None;
        }
        let info = match self.info(id) {
            Some(info) => info,
            None => {
                return None;
            },
        };
        match info {
            TypeInfo::Unknown => None,
            TypeInfo::Ref(x) => self.reconstruct_within(x, fuel - 1),
            TypeInfo::Bool => Some(Type::Bool),
            TypeInfo::Char => Some(Type::Char),
            TypeInfo::RefTo(x) => match self.reconstruct_within(x, fuel - 1) {
                Some(t) => Some(Type::Ref(Box::new(t))),
                None => None,
            },
            TypeInfo::RefMutTo(x) => match self.reconstruct_within(x, fuel - 1) {
                Some(t) => Some(Type::RefMut(Box::new(t))),
                None => None,
            },
            TypeInfo::Integer(Some(i)) => Some(
                match i {
                    Integer::U8 => Type::U8,
                    Integer::U16 => Type::U16,
                    Integer::U32 => Type::U32,
                    Integer::U64 => Type::U64,
                    Integer::I8 => Type::I8,
                    Integer::I16 => Type::I16,
                    Integer::I32 => Type::I32,
                    Integer::I64 => Type::I64,
                },
            ),
            TypeInfo::Float(Some(f)) => Some(
                match f {
                    Float::F32 => Type::F32,
                    Float::F64 => Type::F64,
                },
            ),
            TypeInfo::Integer(None) => Some(Type::I32),
            TypeInfo::Float(None) => Some(Type::F64),
        }
    }

    /// The type that a variable stands for. Chains of variables are
    /// followed as far as the table has variables.
    pub fn reconstruct(&self, id: TypeId) -> (r: Result<Type, String>)
        ensures
            match reconstructed(self.vars@, id, self.id_counter as nat) {
                Some(t) => r == Ok::<Type, String>(t),
                None => r is Err,
            },
    {
        match self.reconstruct_within(id, self.id_counter) {
            Some(t) => Ok(t),
            None => Err(String::from_str("cannot infer")),
        }
    }
}

impl Default for Machine {
    fn default() -> (machine: Machine)
        ensures
            machine.wf(),
            machine.id_counter == 0,
            machine.vars@ == Map::<usize, TypeInfo>::empty(),
    {
        Machine::new()
    }
}

} // verus!
