//! The typed environment: the type of every local and of every region at
//! one program point.
//!
//! A local is bound to a variable identifier, and the identifier to a type.
//! Writing a local binds it to a new identifier; the old one keeps its
//! type. A table of locals that was saved earlier therefore still reads as
//! it did when it was saved.

use vstd::prelude::*;
use crate::constraint::{unpack_spec, ConstraintBuilder, Cursor, TreeModel};
use crate::intern::{arena_extends, arena_wf, Interner};
use crate::ir::{Local, Place};
use crate::result::{TyError, TyResult};
use crate::ty::{ExprNode, FnId, RegionId, Ty};

verus! {

/// Something that holds a type: a local or a region.
#[derive(Clone, Copy, Debug, PartialEq, Eq, Structural)]
pub enum Slot {
    Local(Local),
    Region(RegionId),
}

/// An environment as contracts see it.
pub struct EnvModel {
    pub func: FnId,
    /// The variable identifier of each local.
    pub variables: Seq<usize>,
    /// The type of each variable identifier.
    pub types: Seq<Ty>,
    /// The type of each region.
    pub regions: Seq<Ty>,
}

impl EnvModel {
    /// Every local is bound to an identifier that has a type.
    /// Every local is bound to an identifier that has a type, and the
    /// identifiers can be counted.
    pub open spec fn wf(self) -> bool {
        &&& self.types.len() <= usize::MAX
        &&& forall|l: int| 0 <= l < self.variables.len() ==> #[trigger] self.variables[l] < self.types.len()
    }

    /// Every expression of the environment is a handle below `n`.
    pub open spec fn exprs_below(self, n: nat) -> bool {
        &&& forall|v: int| 0 <= v < self.types.len() ==> (#[trigger] self.types[v]).expr_below(n)
        &&& forall|r: int| 0 <= r < self.regions.len() ==> (#[trigger] self.regions[r]).expr_below(n)
    }

    /// The environment of `nlocals` locals that hold nothing, without
    /// regions.
    pub open spec fn with_locals(func: FnId, nlocals: nat) -> EnvModel {
        EnvModel {
            func,
            variables: Seq::new(nlocals, |l: int| l as usize),
            types: Seq::new(nlocals, |v: int| Ty::Uninit),
            regions: Seq::empty(),
        }
    }

    /// The environment in which local `l` has the type `locals[l]` and
    /// region `r` the type `regions[r]`.
    pub open spec fn from_slots(func: FnId, locals: Seq<Ty>, regions: Seq<Ty>) -> EnvModel {
        EnvModel { func, variables: Seq::new(locals.len(), |l: int| l as usize), types: locals, regions }
    }

    pub open spec fn has_slot(self, s: Slot) -> bool {
        match s {
            Slot::Local(l) => l < self.variables.len(),
            Slot::Region(r) => r < self.regions.len(),
        }
    }

    /// The type that a slot holds.
    pub open spec fn slot_ty(self, s: Slot) -> Ty {
        match s {
            Slot::Local(l) => self.types[self.variables[l as int] as int],
            Slot::Region(r) => self.regions[r as int],
        }
    }

    /// The strong update of a slot. A local gets a new identifier; a region
    /// gets the type in place.
    pub open spec fn set_slot(self, s: Slot, ty: Ty) -> EnvModel {
        match s {
            Slot::Local(l) => EnvModel {
                variables: self.variables.update(l as int, self.types.len() as usize),
                types: self.types.push(ty),
                ..self
            },
            Slot::Region(r) => EnvModel { regions: self.regions.update(r as int, ty), ..self },
        }
    }

    /// The slot reached from `s` through `derefs` dereferences, on behalf
    /// of a place of `local`.
    pub open spec fn walk(self, s: Slot, derefs: nat, local: Local) -> TyResult<Slot>
        decreases derefs,
    {
        if derefs == 0 {
            Ok(s)
        } else {
            match self.slot_ty(s) {
                Ty::MutRef(r) => if r < self.regions.len() {
                    self.walk(Slot::Region(r), (derefs - 1) as nat, local)
                } else {
                    Err(TyError::Malformed)
                },
                Ty::Uninit => Err(TyError::Ownership(local)),
                _ => Err(TyError::Malformed),
            }
        }
    }

    /// The slot that a place names.
    pub open spec fn resolve(self, p: Place) -> TyResult<Slot> {
        if p.local < self.variables.len() {
            self.walk(Slot::Local(p.local), p.derefs as nat, p.local)
        } else {
            Err(TyError::Malformed)
        }
    }

    /// Reading a place without consuming it: its type, unless it holds no
    /// live value.
    pub open spec fn lookup_place(self, p: Place) -> TyResult<Ty> {
        match self.resolve(p) {
            Ok(s) => if self.slot_ty(s) is Uninit {
                Err(TyError::Ownership(p.local))
            } else {
                Ok(self.slot_ty(s))
            },
            Err(e) => Err(e),
        }
    }

    /// Reading a place and consuming it: its type, and the place holds no
    /// live value afterwards.
    pub open spec fn move_place(self, p: Place) -> (EnvModel, TyResult<Ty>) {
        match self.lookup_place(p) {
            Ok(ty) => (self.set_slot(self.resolve(p)->Ok_0, Ty::Uninit), Ok(ty)),
            Err(e) => (self, Err(e)),
        }
    }

    /// The strong update of a place.
    pub open spec fn write_place(self, p: Place, ty: Ty) -> (EnvModel, TyResult<()>) {
        match self.resolve(p) {
            Ok(s) => (self.set_slot(s, ty), Ok(())),
            Err(e) => (self, Err(e)),
        }
    }

    /// Binding a local to a type.
    pub open spec fn define_local(self, l: Local, ty: Ty) -> (EnvModel, TyResult<()>) {
        self.write_place(Place { local: l, derefs: 0 }, ty)
    }

    /// A new region that holds a type.
    pub open spec fn push_region(self, ty: Ty) -> (EnvModel, RegionId) {
        (EnvModel { regions: self.regions.push(ty), ..self }, self.regions.len() as RegionId)
    }

    /// Taking a mutable reference to a place: a new region that holds the
    /// type of the place.
    pub open spec fn get_region(self, p: Place) -> (EnvModel, TyResult<RegionId>) {
        match self.lookup_place(p) {
            Ok(ty) => (self.push_region(ty).0, Ok(self.push_region(ty).1)),
            Err(e) => (self, Err(e)),
        }
    }

    pub open spec fn lookup_region(self, r: RegionId) -> Option<Ty> {
        if r < self.regions.len() {
            Some(self.regions[r as int])
        } else {
            None
        }
    }

    /// The strong update of a region.
    pub open spec fn update_region(self, r: RegionId, ty: Ty) -> (EnvModel, TyResult<()>) {
        if r < self.regions.len() {
            (self.set_slot(Slot::Region(r), ty), Ok(()))
        } else {
            (self, Err(TyError::Malformed))
        }
    }

    /// The number of slots: locals and regions.
    pub open spec fn num_slots(self) -> nat {
        self.variables.len() + self.regions.len()
    }

    /// The slots in order: the locals, then the regions.
    pub open spec fn slot_at(self, i: int) -> Slot {
        if i < self.variables.len() {
            Slot::Local(i as usize)
        } else {
            Slot::Region((i - self.variables.len()) as usize)
        }
    }

    /// Every slot with its type, in order.
    pub open spec fn slots(self) -> Seq<(Slot, Ty)> {
        Seq::new(self.num_slots(), |i: int| (self.slot_at(i), self.slot_ty(self.slot_at(i))))
    }

    /// The environment with a saved table of locals put back. Regions stay
    /// as they are.
    pub open spec fn restore(self, saved: Seq<usize>) -> (EnvModel, TyResult<()>) {
        if saved.len() == self.variables.len() && (forall|l: int|
            0 <= l < saved.len() ==> #[trigger] saved[l] < self.types.len()) {
            (EnvModel { variables: saved, ..self }, Ok(()))
        } else {
            (self, Err(TyError::Malformed))
        }
    }
}

/// What comes of a branch that was explored and left `env` and `result`
/// behind, where the table of locals was `saved` before: the table is
/// put back, whether the branch succeeded or failed, and what the branch
/// did to regions stays. The result is that of the branch; where the
/// branch succeeded and the table does not fit the environment that it
/// left, the result is the failure to put it back.
pub open spec fn forked_spec<T>(saved: Seq<usize>, env: EnvModel, result: TyResult<T>) -> (EnvModel, TyResult<T>) {
    let (restored, fits) = env.restore(saved);
    match result {
        Ok(value) => match fits {
            Ok(_) => (restored, Ok(value)),
            Err(e) => (restored, Err(e)),
        },
        Err(e) => (restored, Err(e)),
    }
}

/// A branch leaves no binding of a local behind, whether it succeeds or
/// fails: where the saved table fits the environment that the branch
/// left, the table afterwards is the saved one, every local reads as the
/// saved table has it, and the regions are as the branch left them. A
/// failure of the branch is the failure of the whole.
pub proof fn law_fork_restores_locals<T>(saved: Seq<usize>, env: EnvModel, result: TyResult<T>)
    requires
        env.restore(saved).1 is Ok,
    ensures
        forked_spec(saved, env, result).0.variables == saved,
        forked_spec(saved, env, result).0.types == env.types,
        forked_spec(saved, env, result).0.regions == env.regions,
        forked_spec(saved, env, result).1 == result,
{
}

/// What unpacking the slots from `i` on, of `n` in all, leaves behind: the
/// values of every slot whose type pins no value down are named, the
/// locals first, then the regions, each name in the scope of those before
/// it.
pub open spec fn unpack_slots_spec(
    nodes: Seq<ExprNode>,
    tree: TreeModel,
    c: Cursor,
    env: EnvModel,
    i: int,
    n: int,
) -> (Seq<ExprNode>, TreeModel, Cursor, EnvModel)
    decreases n - i,
{
    if i < 0 || i >= n {
        (nodes, tree, c, env)
    } else {
        let s = env.slot_at(i);
        let (n1, t1, c1, ty) = unpack_spec(nodes, tree, c, env.slot_ty(s));
        let env1 = if ty == env.slot_ty(s) {
            env
        } else {
            env.set_slot(s, ty)
        };
        unpack_slots_spec(n1, t1, c1, env1, i + 1, n)
    }
}

/// What unpacking an environment leaves behind.
pub open spec fn unpack_env_spec(nodes: Seq<ExprNode>, tree: TreeModel, c: Cursor, env: EnvModel) -> (
    Seq<ExprNode>,
    TreeModel,
    Cursor,
    EnvModel,
) {
    unpack_slots_spec(nodes, tree, c, env, 0, env.num_slots() as int)
}

/// Writing a type into a well-formed environment keeps it free of
/// expressions that the arena lacks.
pub proof fn lemma_set_slot_below(env: EnvModel, s: Slot, ty: Ty, n: nat)
    requires
        env.wf(),
        env.has_slot(s),
        env.exprs_below(n),
        ty.expr_below(n),
    ensures
        env.set_slot(s, ty).exprs_below(n),
{
    let e1 = env.set_slot(s, ty);
    assert forall|v: int| 0 <= v < e1.types.len() implies (#[trigger] e1.types[v]).expr_below(n) by {
        if v < env.types.len() {
            assert(e1.types[v] == env.types[v]);
        }
    }
    assert forall|r: int| 0 <= r < e1.regions.len() implies (#[trigger] e1.regions[r]).expr_below(n) by {
        match s {
            Slot::Region(k) => {
                if r != k {
                    assert(e1.regions[r] == env.regions[r]);
                }
            },
            _ => {
                assert(e1.regions[r] == env.regions[r]);
            },
        }
    }
}

/// What a slot of an environment holds is in the arena if the environment
/// is.
pub proof fn lemma_slot_below(env: EnvModel, s: Slot, n: nat)
    requires
        env.wf(),
        env.has_slot(s),
        env.exprs_below(n),
    ensures
        env.slot_ty(s).expr_below(n),
{
    match s {
        Slot::Local(l) => {
            assert(env.types[env.variables[l as int] as int].expr_below(n));
        },
        Slot::Region(r) => {
            assert(env.regions[r as int].expr_below(n));
        },
    }
}

/// An environment whose expressions are in an arena has them in every
/// later arena.
pub proof fn lemma_env_below_later(env: EnvModel, n: nat, m: nat)
    requires
        env.exprs_below(n),
        n <= m,
    ensures
        env.exprs_below(m),
{
    assert forall|v: int| 0 <= v < env.types.len() implies (#[trigger] env.types[v]).expr_below(m) by {
        assert(env.types[v].expr_below(n));
    }
    assert forall|r: int| 0 <= r < env.regions.len() implies (#[trigger] env.regions[r]).expr_below(m) by {
        assert(env.regions[r].expr_below(n));
    }
}

pub struct Env {
    func_id: FnId,
    variables: Vec<usize>,
    types: Vec<Ty>,
    regions: Vec<Ty>,
}

impl View for Env {
    type V = EnvModel;

    closed spec fn view(&self) -> EnvModel {
        EnvModel {
            func: self.func_id,
            variables: self.variables@,
            types: self.types@,
            regions: self.regions@,
        }
    }
}

/// A copy of a vector of plain values.
pub fn copy_vec<T: Copy>(v: &Vec<T>) -> (r: Vec<T>)
    ensures
        r@ == v@,
{
    let mut r: Vec<T> = Vec::new();
    let mut i: usize = 0;
    while i < v.len()
        invariant
            i <= v.len(),
            r@ == v@.subrange(0, i as int),
        decreases v.len() - i,
    {
        r.push(v[i]);
        i = i + 1;
        assert(v@.subrange(0, i as int) == v@.subrange(0, i - 1).push(v@[i - 1]));
    }
    assert(v@.subrange(0, i as int) == v@);
    r
}

impl Clone for Env {
    fn clone(&self) -> (r: Env)
        ensures
            r@ == self@,
    {
        Env {
            func_id: self.func_id,
            variables: copy_vec(&self.variables),
            types: copy_vec(&self.types),
            regions: copy_vec(&self.regions),
        }
    }
}

impl Env {
    pub open spec fn wf(&self) -> bool {
        self@.wf()
    }

    /// The environment of the given tables, without regions, if every
    /// local is bound to an identifier that has a type.
    pub fn new(func_id: FnId, variables: Vec<usize>, types: Vec<Ty>) -> (r: TyResult<Env>)
        ensures
            match r {
                Ok(env) => env@ == (EnvModel {
                    func: func_id,
                    variables: variables@,
                    types: types@,
                    regions: Seq::empty(),
                }) && env.wf(),
                Err(e) => e == TyError::Malformed && !(EnvModel {
                    func: func_id,
                    variables: variables@,
                    types: types@,
                    regions: Seq::empty(),
                }).wf(),
            },
    {
        let mut l: usize = 0;
        while l < variables.len()
            invariant
                l <= variables.len(),
                forall|k: int| 0 <= k < l ==> #[trigger] variables@[k] < types@.len(),
            decreases variables.len() - l,
        {
            if variables[l] >= types.len() {
                proof {
                    let m = EnvModel {
                        func: func_id,
                        variables: variables@,
                        types: types@,
                        regions: Seq::empty(),
                    };
                    assert(!(m.variables[l as int] < m.types.len()));
                }
                return Err(TyError::Malformed);
            }
            l = l + 1;
        }
        assert(types.len() == types@.len());
        Ok(Env { func_id, variables, types, regions: Vec::new() })
    }

    /// The environment of `nlocals` locals that hold nothing.
    pub fn with_locals(func_id: FnId, nlocals: usize) -> (env: Env)
        ensures
            env@ == EnvModel::with_locals(func_id, nlocals as nat),
            env.wf(),
    {
        let mut variables: Vec<usize> = Vec::new();
        let mut types: Vec<Ty> = Vec::new();
        let mut l: usize = 0;
        while l < nlocals
            invariant
                l <= nlocals,
                variables@ == Seq::new(l as nat, |k: int| k as usize),
                types@ == Seq::new(l as nat, |k: int| Ty::Uninit),
            decreases nlocals - l,
        {
            variables.push(l);
            types.push(Ty::Uninit);
            l = l + 1;
            assert(variables@ =~= Seq::new(l as nat, |k: int| k as usize));
            assert(types@ =~= Seq::new(l as nat, |k: int| Ty::Uninit));
        }
        Env { func_id, variables, types, regions: Vec::new() }
    }

    /// The environment of the given types of locals and regions.
    pub fn from_slots(func_id: FnId, locals: Vec<Ty>, regions: Vec<Ty>) -> (env: Env)
        ensures
            env@ == EnvModel::from_slots(func_id, locals@, regions@),
            env.wf(),
    {
        let mut variables: Vec<usize> = Vec::new();
        let mut l: usize = 0;
        while l < locals.len()
            invariant
                l <= locals.len(),
                variables@ == Seq::new(l as nat, |k: int| k as usize),
            decreases locals.len() - l,
        {
            variables.push(l);
            l = l + 1;
            assert(variables@ =~= Seq::new(l as nat, |k: int| k as usize));
        }
        Env { func_id, variables, types: locals, regions }
    }

    pub fn func_id(&self) -> (f: FnId)
        ensures
            f == self@.func,
    {
        self.func_id
    }

    pub fn num_locals(&self) -> (n: usize)
        ensures
            n == self@.variables.len(),
    {
        self.variables.len()
    }

    pub fn num_regions(&self) -> (n: usize)
        ensures
            n == self@.regions.len(),
    {
        self.regions.len()
    }

    pub fn num_variables(&self) -> (n: usize)
        ensures
            n == self@.types.len(),
    {
        self.types.len()
    }

    /// The type of a variable identifier.
    pub fn get_ty(&self, variable: usize) -> (ty: Ty)
        requires
            variable < self@.types.len(),
        ensures
            ty == self@.types[variable as int],
    {
        self.types[variable]
    }

    /// The variable identifier that a local is bound to.
    pub fn resolve_local(&self, local: Local) -> (v: usize)
        requires
            local < self@.variables.len(),
        ensures
            v == self@.variables[local as int],
    {
        self.variables[local]
    }

    /// Whether the environment has the slot.
    pub fn has_slot(&self, s: Slot) -> (r: bool)
        ensures
            r == self@.has_slot(s),
    {
        match s {
            Slot::Local(l) => l < self.variables.len(),
            Slot::Region(r) => r < self.regions.len(),
        }
    }

    /// The type that a slot holds.
    pub fn slot_ty(&self, s: Slot) -> (ty: Ty)
        requires
            self.wf(),
            self@.has_slot(s),
        ensures
            ty == self@.slot_ty(s),
    {
        match s {
            Slot::Local(l) => self.types[self.variables[l]],
            Slot::Region(r) => self.regions[r],
        }
    }

    fn set_slot(&mut self, s: Slot, ty: Ty)
        requires
            old(self).wf(),
            old(self)@.has_slot(s),
        ensures
            final(self)@ == old(self)@.set_slot(s, ty),
            final(self).wf(),
    {
        match s {
            Slot::Local(l) => {
                let v = self.types.len();
                self.types.push(ty);
                self.variables.set(l, v);
                assert(self.types.len() == self.types@.len());
                assert forall|k: int| 0 <= k < self@.variables.len() implies #[trigger] self@.variables[k]
                    < self@.types.len() by {
                    if k != l {
                        assert(self@.variables[k] == old(self)@.variables[k]);
                    }
                }
            },
            Slot::Region(r) => {
                self.regions.set(r, ty);
                assert(self@.variables == old(self)@.variables);
                assert(self@.types == old(self)@.types);
            },
        }
    }

    /// The slot that a place names.
    pub fn resolve(&self, p: Place) -> (r: TyResult<Slot>)
        requires
            self.wf(),
        ensures
            r == self@.resolve(p),
            r is Ok ==> self@.has_slot(r->Ok_0),
    {
        if p.local >= self.variables.len() {
            return Err(TyError::Malformed);
        }
        let mut s = Slot::Local(p.local);
        let mut k: usize = p.derefs;
        while k > 0
            invariant
                self.wf(),
                self@.has_slot(s),
                self@.walk(s, k as nat, p.local) == self@.resolve(p),
            decreases k,
        {
            match self.slot_ty(s) {
                Ty::MutRef(r) => {
                    if r < self.regions.len() {
                        s = Slot::Region(r);
                    } else {
                        return Err(TyError::Malformed);
                    }
                },
                Ty::Uninit => {
                    return Err(TyError::Ownership(p.local));
                },
                _ => {
                    return Err(TyError::Malformed);
                },
            }
            k = k - 1;
        }
        Ok(s)
    }

    /// Reads a place without consuming it.
    pub fn lookup_place(&self, p: Place) -> (r: TyResult<Ty>)
        requires
            self.wf(),
        ensures
            r == self@.lookup_place(p),
    {
        match self.resolve(p) {
            Ok(s) => {
                let ty = self.slot_ty(s);
                match ty {
                    Ty::Uninit => Err(TyError::Ownership(p.local)),
                    _ => Ok(ty),
                }
            },
            Err(e) => Err(e),
        }
    }

    /// The type of a local, whatever it is.
    pub fn lookup_local(&self, l: Local) -> (r: Option<Ty>)
        requires
            self.wf(),
        ensures
            r == (if l < self@.variables.len() {
                Some(self@.slot_ty(Slot::Local(l)))
            } else {
                None
            }),
    {
        if l < self.variables.len() {
            Some(self.slot_ty(Slot::Local(l)))
        } else {
            None
        }
    }

    /// Reads a place and consumes it: until it is written again, reading
    /// it fails.
    pub fn move_place(&mut self, p: Place) -> (r: TyResult<Ty>)
        requires
            old(self).wf(),
        ensures
            (final(self)@, r) == old(self)@.move_place(p),
            final(self).wf(),
    {
        match self.resolve(p) {
            Ok(s) => {
                let ty = self.slot_ty(s);
                match ty {
                    Ty::Uninit => Err(TyError::Ownership(p.local)),
                    _ => {
                        self.set_slot(s, Ty::Uninit);
                        Ok(ty)
                    },
                }
            },
            Err(e) => Err(e),
        }
    }

    /// The strong update of a place.
    pub fn write_place(&mut self, p: Place, ty: Ty) -> (r: TyResult<()>)
        requires
            old(self).wf(),
        ensures
            (final(self)@, r) == old(self)@.write_place(p, ty),
            final(self).wf(),
    {
        match self.resolve(p) {
            Ok(s) => {
                self.set_slot(s, ty);
                Ok(())
            },
            Err(e) => Err(e),
        }
    }

    /// Binds a local to a type, under a new variable identifier.
    pub fn define_local(&mut self, l: Local, ty: Ty) -> (r: TyResult<()>)
        requires
            old(self).wf(),
        ensures
            (final(self)@, r) == old(self)@.define_local(l, ty),
            final(self).wf(),
    {
        self.write_place(Place { local: l, derefs: 0 }, ty)
    }

    /// Adds a region that holds a type.
    pub fn push_region(&mut self, ty: Ty) -> (r: RegionId)
        requires
            old(self).wf(),
        ensures
            (final(self)@, r) == old(self)@.push_region(ty),
            final(self).wf(),
    {
        let r = self.regions.len();
        self.regions.push(ty);
        assert(self@.variables == old(self)@.variables);
        assert(self@.types == old(self)@.types);
        assert(self@.wf());
        r
    }

    /// Takes a mutable reference to a place.
    pub fn get_region(&mut self, p: Place) -> (r: TyResult<RegionId>)
        requires
            old(self).wf(),
        ensures
            (final(self)@, r) == old(self)@.get_region(p),
            final(self).wf(),
    {
        match self.lookup_place(p) {
            Ok(ty) => Ok(self.push_region(ty)),
            Err(e) => Err(e),
        }
    }

    /// The type that a region holds.
    pub fn lookup_region(&self, r: RegionId) -> (ty: Option<Ty>)
        ensures
            ty == self@.lookup_region(r),
    {
        if r < self.regions.len() {
            Some(self.regions[r])
        } else {
            None
        }
    }

    /// The strong update of a region.
    pub fn update_region(&mut self, r: RegionId, ty: Ty) -> (res: TyResult<()>)
        requires
            old(self).wf(),
        ensures
            (final(self)@, res) == old(self)@.update_region(r, ty),
            final(self).wf(),
    {
        if r < self.regions.len() {
            self.set_slot(Slot::Region(r), ty);
            Ok(())
        } else {
            Err(TyError::Malformed)
        }
    }

    /// Every slot with its type: the locals in order, then the regions.
    pub fn iter(&self) -> (r: Vec<(Slot, Ty)>)
        requires
            self.wf(),
        ensures
            r@ == self@.slots(),
    {
        let mut r: Vec<(Slot, Ty)> = Vec::new();
        let mut l: usize = 0;
        while l < self.variables.len()
            invariant
                self.wf(),
                l <= self.variables.len(),
                r@ == self@.slots().subrange(0, l as int),
            decreases self.variables.len() - l,
        {
            r.push((Slot::Local(l), self.slot_ty(Slot::Local(l))));
            l = l + 1;
            assert(r@ =~= self@.slots().subrange(0, l as int));
        }
        let mut k: usize = 0;
        while k < self.regions.len()
            invariant
                self.wf(),
                k <= self.regions.len(),
                r@ == self@.slots().subrange(0, self.variables.len() + k),
            decreases self.regions.len() - k,
        {
            r.push((Slot::Region(k), self.slot_ty(Slot::Region(k))));
            k = k + 1;
            assert(r@ =~= self@.slots().subrange(0, self.variables.len() + k));
        }
        assert(r@ =~= self@.slots());
        r
    }

    /// Names the values of every slot whose type pins no value down. Each
    /// name gets a scope under the cursor, which moves into it.
    #[verifier::rlimit(40)]
    pub fn unpack(&mut self, interner: &mut Interner, builder: &mut ConstraintBuilder, cursor: &mut Cursor)
        requires
            arena_wf(old(interner)@),
            old(builder).wf(),
            old(builder)@.holds(*old(cursor)),
            old(builder)@.exprs_below(old(interner)@.len()),
            old(self).wf(),
            old(self)@.exprs_below(old(interner)@.len()),
        ensures
            (final(interner)@, final(builder)@, *final(cursor), final(self)@) == unpack_env_spec(
                old(interner)@,
                old(builder)@,
                *old(cursor),
                old(self)@,
            ),
            arena_wf(final(interner)@),
            arena_extends(final(interner)@, old(interner)@),
            final(builder).wf(),
            final(builder)@.holds(*final(cursor)),
            final(builder)@.exprs_below(final(interner)@.len()),
            final(builder)@.extends(old(builder)@),
            final(self).wf(),
            final(self)@.exprs_below(final(interner)@.len()),
    {
        let nl = self.variables.len();
        let nr = self.regions.len();
        let ghost total = old(self)@.num_slots() as int;
        let mut l: usize = 0;
        while l < nl
            invariant
                l <= nl,
                nl == self@.variables.len(),
                self@.num_slots() == total,
                arena_wf(interner@),
                arena_extends(interner@, old(interner)@),
                builder.wf(),
                builder@.holds(*cursor),
                builder@.exprs_below(interner@.len()),
                builder@.extends(old(builder)@),
                self.wf(),
                self@.exprs_below(interner@.len()),
                unpack_slots_spec(interner@, builder@, *cursor, self@, l as int, total)
                    == unpack_slots_spec(
                    old(interner)@,
                    old(builder)@,
                    *old(cursor),
                    old(self)@,
                    0,
                    total,
                ),
            decreases nl - l,
        {
            self.unpack_slot(interner, builder, cursor, Slot::Local(l));
            l = l + 1;
        }
        let mut r: usize = 0;
        while r < nr
            invariant
                r <= nr,
                nl == self@.variables.len(),
                nr == self@.regions.len(),
                self@.num_slots() == total,
                arena_wf(interner@),
                arena_extends(interner@, old(interner)@),
                builder.wf(),
                builder@.holds(*cursor),
                builder@.exprs_below(interner@.len()),
                builder@.extends(old(builder)@),
                self.wf(),
                self@.exprs_below(interner@.len()),
                unpack_slots_spec(interner@, builder@, *cursor, self@, nl + r, total)
                    == unpack_slots_spec(
                    old(interner)@,
                    old(builder)@,
                    *old(cursor),
                    old(self)@,
                    0,
                    total,
                ),
            decreases nr - r,
        {
            self.unpack_slot(interner, builder, cursor, Slot::Region(r));
            r = r + 1;
        }
    }

    /// Names the values of one slot, if its type pins no value down.
    fn unpack_slot(
        &mut self,
        interner: &mut Interner,
        builder: &mut ConstraintBuilder,
        cursor: &mut Cursor,
        s: Slot,
    )
        requires
            arena_wf(old(interner)@),
            old(builder).wf(),
            old(builder)@.holds(*old(cursor)),
            old(builder)@.exprs_below(old(interner)@.len()),
            old(self).wf(),
            old(self)@.exprs_below(old(interner)@.len()),
            old(self)@.has_slot(s),
        ensures
            (final(interner)@, final(builder)@, *final(cursor)) == (
                unpack_spec(old(interner)@, old(builder)@, *old(cursor), old(self)@.slot_ty(s)).0,
                unpack_spec(old(interner)@, old(builder)@, *old(cursor), old(self)@.slot_ty(s)).1,
                unpack_spec(old(interner)@, old(builder)@, *old(cursor), old(self)@.slot_ty(s)).2,
            ),
            final(self)@ == (if unpack_spec(
                old(interner)@,
                old(builder)@,
                *old(cursor),
                old(self)@.slot_ty(s),
            ).3 == old(self)@.slot_ty(s) {
                old(self)@
            } else {
                old(self)@.set_slot(
                    s,
                    unpack_spec(old(interner)@, old(builder)@, *old(cursor), old(self)@.slot_ty(s)).3,
                )
            }),
            arena_wf(final(interner)@),
            arena_extends(final(interner)@, old(interner)@),
            final(builder).wf(),
            final(builder)@.holds(*final(cursor)),
            final(builder)@.exprs_below(final(interner)@.len()),
            final(builder)@.extends(old(builder)@),
            final(self).wf(),
            final(self)@.exprs_below(final(interner)@.len()),
            final(self)@.variables.len() == old(self)@.variables.len(),
            final(self)@.regions.len() == old(self)@.regions.len(),
    {
        let ghost before = interner@;
        let ghost env_before = self@;
        let ty = self.slot_ty(s);
        proof {
            lemma_slot_below(self@, s, interner@.len());
        }
        let unpacked = cursor.unpack(interner, builder, ty);
        proof {
            lemma_env_below_later(self@, before.len(), interner@.len());
        }
        if unpacked != ty {
            self.set_slot(s, unpacked);
            proof {
                lemma_set_slot_below(env_before, s, unpacked, interner@.len());
            }
        }
    }

    /// The table of locals, to put back later.
    pub fn saved_locals(&self) -> (saved: Vec<usize>)
        ensures
            saved@ == self@.variables,
    {
        copy_vec(&self.variables)
    }

    /// Explores a branch and comes back: `f` is run on the environment, and
    /// afterwards the table of locals is put back as it was before,
    /// whether `f` succeeded or failed, while what the branch did to
    /// regions stays. Where `f` fails the error is that of `f`.
    ///
    /// Because regions are not rolled back, the rule of a branch does not
    /// explore its arms through `fork`: it gives each arm a copy of the
    /// whole environment, so that what one arm does to a region is no part
    /// of what another arm owes.
    pub fn fork<T, F: FnOnce(Env) -> (Env, TyResult<T>)>(self, f: F) -> (r: (Env, TyResult<T>))
        requires
            self.wf(),
            f.requires((self,)),
            forall|out: (Env, TyResult<T>)| f.ensures((self,), out) ==> out.0.wf(),
        ensures
            r.0.wf(),
            exists|out: (Env, TyResult<T>)|
                {
                    &&& #[trigger] f.ensures((self,), out)
                    &&& forked_spec(self@.variables, out.0@, out.1) == (r.0@, r.1)
                },
            r.1 is Ok ==> r.0@.variables == self@.variables,
            r.0@.variables == self@.variables || r.0@.restore(self@.variables).1 is Err,
    {
        let saved = self.saved_locals();
        let (mut env, result) = f(self);
        let fits = env.restore(saved);
        match result {
            Ok(value) => match fits {
                Ok(_) => (env, Ok(value)),
                Err(e) => (env, Err(e)),
            },
            Err(e) => (env, Err(e)),
        }
    }

    /// Puts a saved table of locals back. What the branch did to regions
    /// stays.
    pub fn restore(&mut self, saved: Vec<usize>) -> (r: TyResult<()>)
        requires
            old(self).wf(),
        ensures
            (final(self)@, r) == old(self)@.restore(saved@),
            final(self).wf(),
    {
        if saved.len() != self.variables.len() {
            return Err(TyError::Malformed);
        }
        let mut l: usize = 0;
        while l < saved.len()
            invariant
                *self == *old(self),
                self.wf(),
                l <= saved.len(),
                forall|k: int| 0 <= k < l ==> #[trigger] saved@[k] < self.types@.len(),
            decreases saved.len() - l,
        {
            if saved[l] >= self.types.len() {
                assert(!(saved@[l as int] < self@.types.len()));
                return Err(TyError::Malformed);
            }
            l = l + 1;
        }
        self.variables = saved;
        Ok(())
    }
}

/// On a path that ends in a slot which was emptied, dereferencing again
/// either ends in that slot or stops at an empty slot before.
proof fn lemma_walk_after_emptying(e: EnvModel, s0: Slot, k: nat, local: Local, sf: Slot)
    requires
        e.wf(),
        e.has_slot(s0),
        e.has_slot(sf),
        e.walk(s0, k, local) == Ok::<Slot, TyError>(sf),
        sf is Local ==> k == 0,
    ensures
        ({
            let e1 = e.set_slot(sf, Ty::Uninit);
            e1.walk(s0, k, local) == Ok::<Slot, TyError>(sf) || e1.walk(s0, k, local) == Err::<
                Slot,
                TyError,
            >(TyError::Ownership(local))
        }),
    decreases k,
{
    let e1 = e.set_slot(sf, Ty::Uninit);
    if k > 0 {
        if s0 == sf {
        } else {
            assert(e1.slot_ty(s0) == e.slot_ty(s0));
            match e.slot_ty(s0) {
                Ty::MutRef(r) => {
                    lemma_walk_after_emptying(e, Slot::Region(r), (k - 1) as nat, local, sf);
                },
                _ => {},
            }
        }
    }
}

proof fn lemma_walk_ends_in_region(e: EnvModel, s0: Slot, k: nat, local: Local)
    requires
        e.walk(s0, k, local) is Ok,
        e.has_slot(s0),
    ensures
        e.has_slot(e.walk(s0, k, local)->Ok_0),
        k > 0 ==> e.walk(s0, k, local)->Ok_0 is Region,
    decreases k,
{
    if k > 0 {
        match e.slot_ty(s0) {
            Ty::MutRef(r) => {
                lemma_walk_ends_in_region(e, Slot::Region(r), (k - 1) as nat, local);
            },
            _ => {},
        }
    }
}

/// The affine discipline: once a place was moved out, reading it and
/// moving it fail with an ownership violation, and leave the environment
/// as it is, until the place is written again.
pub proof fn law_moved_place_is_dead(e: EnvModel, p: Place)
    requires
        e.wf(),
        e.move_place(p).1 is Ok,
    ensures
        e.move_place(p).0.lookup_place(p) == Err::<Ty, TyError>(TyError::Ownership(p.local)),
        e.move_place(p).0.move_place(p) == (
            e.move_place(p).0,
            Err::<Ty, TyError>(TyError::Ownership(p.local)),
        ),
{
    assert(e.lookup_place(p) is Ok);
    assert(e.resolve(p) is Ok);
    let sf = e.resolve(p)->Ok_0;
    lemma_walk_ends_in_region(e, Slot::Local(p.local), p.derefs as nat, p.local);
    lemma_walk_after_emptying(e, Slot::Local(p.local), p.derefs as nat, p.local, sf);
    let e1 = e.set_slot(sf, Ty::Uninit);
    assert(e.has_slot(sf));
    assert(e1.slot_ty(sf) == Ty::Uninit);
}

/// A strong update leaves history alone: every variable identifier keeps
/// its type, so a table of locals saved before the write, put back after
/// it, reads every local as it read before. An environment that was cloned
/// before the write is such a table together with the types it reads.
pub proof fn law_write_keeps_history(e: EnvModel, p: Place, ty: Ty)
    requires
        e.wf(),
    ensures
        ({
            let e1 = e.write_place(p, ty).0;
            &&& e.types.len() <= e1.types.len()
            &&& forall|v: int| 0 <= v < e.types.len() ==> e1.types[v] == e.types[v]
            &&& e1.restore(e.variables).1 is Ok
            &&& forall|l: Local|
                l < e.variables.len() ==> #[trigger] e1.restore(e.variables).0.slot_ty(Slot::Local(l))
                    == e.slot_ty(Slot::Local(l))
        }),
{
    if e.resolve(p) is Ok {
        lemma_walk_ends_in_region(e, Slot::Local(p.local), p.derefs as nat, p.local);
    }
}

} // verus!
