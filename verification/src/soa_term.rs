use vstd::prelude::*;

verus! {

/// The shape tag packed into a term handle.
#[derive(Debug, Clone, Copy, Eq, PartialEq, Hash, Structural)]
enum Kind {
    App,
    Lam,
    Type,
    Var,
    DBVar,
}

/// A named variable: a compact handle into the store's name table.
#[derive(Debug, Clone, Copy, Eq, PartialEq, Hash, Structural)]
pub struct Var(u32);

/// A term: a shape tag together with a payload, which is an index into the
/// store's table for that shape (or the level or de Bruijn index itself).
#[derive(Debug, Clone, Copy, Eq, PartialEq, Hash, Structural)]
pub struct Term(Kind, u32);

/// What a term looks like from outside: one case per shape.
#[derive(Debug, Clone, Copy, Eq, PartialEq, Hash, Structural)]
pub enum TermView {
    App(Term, Term),
    Lam(Term, Term),
    Var(Var),
    DBVar(u16),
    Type(u8),
}

/// A hashconsing term store laid out struct-of-arrays: applications and
/// lambdas each live in their own table, deduplicated so that building the
/// same composite twice yields the same handle; variables are interned by
/// name. Atoms (de Bruijn indices, type levels) need no storage at all.
pub struct TermStore {
    apps: Vec<(Term, Term)>,
    lambdas: Vec<(Term, Term)>,
    vars: Vec<String>,
    /// A strict upper bound on the ranks of each application's components.
    apps_rank: Ghost<Seq<nat>>,
    /// A strict upper bound on the ranks of each lambda's components.
    lams_rank: Ghost<Seq<nat>>,
}

impl Var {
    /// The handle's position in the store's name table.
    pub closed spec fn id(self) -> u32 {
        self.0
    }
}

/// The variable whose handle is `i`.
pub closed spec fn var_with_id(i: int) -> Var {
    Var(i as u32)
}

/// The application term recorded at position `i`.
pub closed spec fn app_term(i: int) -> Term {
    Term(Kind::App, i as u32)
}

/// The lambda term recorded at position `i`.
pub closed spec fn lam_term(i: int) -> Term {
    Term(Kind::Lam, i as u32)
}

/// The term for the variable handle `v`.
pub closed spec fn var_term(v: Var) -> Term {
    Term(Kind::Var, v.id() as u32)
}

/// The term for the de Bruijn index `i`; atoms need no storage.
pub closed spec fn db_term(i: u16) -> Term {
    Term(Kind::DBVar, i as u32)
}

/// The term for the type of level `l`; atoms need no storage.
pub closed spec fn type_term(l: u8) -> Term {
    Term(Kind::Type, l as u32)
}

/// A pair table after recording `p`: unchanged when `p` is already present,
/// extended by `p` otherwise.
pub open spec fn add_pair_seq(s: Seq<(Term, Term)>, p: (Term, Term)) -> Seq<(Term, Term)> {
    if s.contains(p) {
        s
    } else {
        s.push(p)
    }
}

/// The position at which `p` is (or becomes) recorded in `s`.
pub open spec fn pair_id_for(s: Seq<(Term, Term)>, p: (Term, Term)) -> int {
    if s.contains(p) {
        choose|i: int| 0 <= i < s.len() && s[i] == p
    } else {
        s.len() as int
    }
}

/// A name table after interning `name`: unchanged when `name` is already
/// present, extended by it otherwise.
pub open spec fn add_name_seq(s: Seq<Seq<char>>, name: Seq<char>) -> Seq<Seq<char>> {
    if s.contains(name) {
        s
    } else {
        s.push(name)
    }
}

/// The position at which `name` is (or becomes) interned in `s`.
pub open spec fn name_id_for(s: Seq<Seq<char>>, name: Seq<char>) -> int {
    if s.contains(name) {
        choose|i: int| 0 <= i < s.len() && s[i] == name
    } else {
        s.len() as int
    }
}

/// The application table after folding an application spine over `args`.
#[verifier::opaque]
pub open spec fn app_fold_apps(s: Seq<(Term, Term)>, f: Term, args: Seq<Term>) -> Seq<
    (Term, Term),
>
    decreases args.len(),
{
    if args.len() == 0 {
        s
    } else {
        let p = (f, args[0]);
        app_fold_apps(add_pair_seq(s, p), app_term(pair_id_for(s, p)), args.drop_first())
    }
}

/// The term resulting from folding an application spine over `args`.
#[verifier::opaque]
pub open spec fn app_fold_term(s: Seq<(Term, Term)>, f: Term, args: Seq<Term>) -> Term
    decreases args.len(),
{
    if args.len() == 0 {
        f
    } else {
        let p = (f, args[0]);
        app_fold_term(add_pair_seq(s, p), app_term(pair_id_for(s, p)), args.drop_first())
    }
}

/// Unfold one step of the application-spine fold.
proof fn lemma_fold_step(s: Seq<(Term, Term)>, t: Term, args: Seq<Term>, i: int)
    requires
        0 <= i < args.len(),
    ensures
        app_fold_apps(s, t, args.skip(i)) == app_fold_apps(
            add_pair_seq(s, (t, args[i])),
            app_term(pair_id_for(s, (t, args[i]))),
            args.skip(i + 1),
        ),
        app_fold_term(s, t, args.skip(i)) == app_fold_term(
            add_pair_seq(s, (t, args[i])),
            app_term(pair_id_for(s, (t, args[i]))),
            args.skip(i + 1),
        ),
{
    reveal_with_fuel(app_fold_apps, 1);
    reveal_with_fuel(app_fold_term, 1);
    assert(args.skip(i).drop_first() =~= args.skip(i + 1));
    assert(args.skip(i)[0] == args[i]);
}

/// A fold over no arguments changes nothing and returns the head.
proof fn lemma_fold_empty(s: Seq<(Term, Term)>, t: Term, args: Seq<Term>)
    requires
        args.len() == 0,
    ensures
        app_fold_apps(s, t, args) == s,
        app_fold_term(s, t, args) == t,
{
    reveal_with_fuel(app_fold_apps, 1);
    reveal_with_fuel(app_fold_term, 1);
}

/// The digit character for `n` below ten.
pub open spec fn dec_digit(n: nat) -> char {
    if n == 0 {
        '0'
    } else if n == 1 {
        '1'
    } else if n == 2 {
        '2'
    } else if n == 3 {
        '3'
    } else if n == 4 {
        '4'
    } else if n == 5 {
        '5'
    } else if n == 6 {
        '6'
    } else if n == 7 {
        '7'
    } else if n == 8 {
        '8'
    } else {
        '9'
    }
}

/// The decimal digits of `n`, most significant first.
pub open spec fn dec_str(n: nat) -> Seq<char>
    decreases n,
{
    if n < 10 {
        seq![dec_digit(n)]
    } else {
        dec_str(n / 10).push(dec_digit(n % 10))
    }
}

/// Append the decimal digits of `n` to `s`.
fn push_u16_decimal(s: &mut String, n: u16)
    ensures
        final(s)@ == old(s)@ + dec_str(n as nat),
    decreases n,
{
    if n >= 10 {
        push_u16_decimal(s, n / 10);
    }
    let ghost mid = s@;
    let d = n % 10;
    if d == 0 {
        s.append("0");
    } else if d == 1 {
        s.append("1");
    } else if d == 2 {
        s.append("2");
    } else if d == 3 {
        s.append("3");
    } else if d == 4 {
        s.append("4");
    } else if d == 5 {
        s.append("5");
    } else if d == 6 {
        s.append("6");
    } else if d == 7 {
        s.append("7");
    } else if d == 8 {
        s.append("8");
    } else {
        s.append("9");
    }
    proof {
        reveal_strlit("0");
        reveal_strlit("1");
        reveal_strlit("2");
        reveal_strlit("3");
        reveal_strlit("4");
        reveal_strlit("5");
        reveal_strlit("6");
        reveal_strlit("7");
        reveal_strlit("8");
        reveal_strlit("9");
        assert(final(s)@ =~= mid + seq![dec_digit((n % 10) as nat)]);
        if n >= 10 {
            assert(final(s)@ =~= old(s)@ + dec_str((n / 10) as nat).push(
                dec_digit((n % 10) as nat),
            ));
        }
        assert(final(s)@ =~= old(s)@ + dec_str(n as nat));
    }
}

impl TermStore {
    /// The application table.
    pub closed spec fn apps(self) -> Seq<(Term, Term)> {
        self.apps@
    }

    /// The lambda table.
    pub closed spec fn lambdas(self) -> Seq<(Term, Term)> {
        self.lambdas@
    }

    /// The interned variable names, by handle.
    pub closed spec fn var_names(self) -> Seq<Seq<char>> {
        self.vars@.map_values(|s: String| s@)
    }

    /// Number of recorded applications.
    pub open spec fn n_apps(self) -> nat {
        self.apps().len()
    }

    /// Number of recorded lambdas.
    pub open spec fn n_lams(self) -> nat {
        self.lambdas().len()
    }

    /// Number of interned variable names.
    pub open spec fn n_vars(self) -> nat {
        self.var_names().len()
    }

    /// Whether a term handle points into this store's tables (atoms carry
    /// their payload themselves and are valid when it fits their range).
    pub closed spec fn valid_term(self, t: Term) -> bool {
        match t.0 {
            Kind::App => t.1 < self.apps@.len(),
            Kind::Lam => t.1 < self.lambdas@.len(),
            Kind::Var => t.1 < self.vars@.len(),
            Kind::DBVar => t.1 <= u16::MAX,
            Kind::Type => t.1 <= u8::MAX,
        }
    }

    /// What a valid term looks like.
    pub closed spec fn view_of(self, t: Term) -> TermView {
        match t.0 {
            Kind::App => TermView::App(self.apps@[t.1 as int].0, self.apps@[t.1 as int].1),
            Kind::Lam => TermView::Lam(self.lambdas@[t.1 as int].0, self.lambdas@[t.1 as int].1),
            Kind::Var => TermView::Var(Var(t.1)),
            Kind::DBVar => TermView::DBVar(t.1 as u16),
            Kind::Type => TermView::Type(t.1 as u8),
        }
    }

    /// The name interned for a variable handle.
    pub closed spec fn spec_var_name(self, v: Var) -> Seq<char> {
        self.var_names()[v.id() as int]
    }

    /// A strict bound on how deep printing recurses below `t`: zero for
    /// atoms, the recorded rank for composites.
    pub closed spec fn rank(self, t: Term) -> nat {
        match t.0 {
            Kind::App => if t.1 < self.apps_rank@.len() {
                self.apps_rank@[t.1 as int]
            } else {
                0
            },
            Kind::Lam => if t.1 < self.lams_rank@.len() {
                self.lams_rank@[t.1 as int]
            } else {
                0
            },
            _ => 0,
        }
    }

    /// The internal invariant: the tables fit the 32-bit handle space and
    /// hold no entry twice, every recorded component is itself valid, and
    /// each composite's recorded rank strictly dominates its components'.
    pub closed spec fn wf(self) -> bool {
        &&& self.apps@.len() + self.lambdas@.len() <= u32::MAX
        &&& self.vars@.len() <= u32::MAX
        &&& self.apps@.no_duplicates()
        &&& self.lambdas@.no_duplicates()
        &&& self.var_names().no_duplicates()
        &&& self.apps_rank@.len() == self.apps@.len()
        &&& self.lams_rank@.len() == self.lambdas@.len()
        &&& (forall|i: int|
            0 <= i < self.apps@.len() ==> {
                &&& self.valid_term(#[trigger] self.apps@[i].0)
                &&& self.valid_term(self.apps@[i].1)
                &&& self.rank(self.apps@[i].0) < self.apps_rank@[i]
                &&& self.rank(self.apps@[i].1) < self.apps_rank@[i]
            })
        &&& (forall|i: int|
            0 <= i < self.lambdas@.len() ==> {
                &&& self.valid_term(#[trigger] self.lambdas@[i].0)
                &&& self.valid_term(self.lambdas@[i].1)
                &&& self.rank(self.lambdas@[i].0) < self.lams_rank@[i]
                &&& self.rank(self.lambdas@[i].1) < self.lams_rank@[i]
            })
    }

    /// A new, empty store.
    pub fn new() -> (r: Self)
        ensures
            r.wf(),
            r.n_apps() == 0,
            r.n_lams() == 0,
            r.n_vars() == 0,
    {
        TermStore {
            apps: Vec::new(),
            lambdas: Vec::new(),
            vars: Vec::new(),
            apps_rank: Ghost(Seq::empty()),
            lams_rank: Ghost(Seq::empty()),
        }
    }

    /// Number of composite terms (applications and lambdas).
    pub fn n_composite_terms(&self) -> (n: usize)
        requires
            self.wf(),
        ensures
            n == self.n_apps() + self.n_lams(),
    {
        self.apps.len() + self.lambdas.len()
    }

    /// Intern a variable name, returning the existing handle when the name
    /// is already known and a fresh one otherwise.
    #[verifier::loop_isolation(false)]
    fn hcons_var_(&mut self, v: &str) -> (r: Var)
        requires
            old(self).wf(),
            old(self).n_vars() < u32::MAX,
        ensures
            final(self).wf(),
            final(self).var_names() == add_name_seq(old(self).var_names(), v@),
            r == var_with_id(name_id_for(old(self).var_names(), v@)),
            r.id() < final(self).n_vars(),
            final(self).spec_var_name(r) == v@,
            final(self).apps() == old(self).apps(),
            final(self).lambdas() == old(self).lambdas(),
            final(self).rank_preserved(*old(self)),
    {
        let n = self.vars.len();
        let vs: String = v.to_owned();
        let mut i: usize = 0;
        while i < n
            invariant
                i <= n,
                forall|j: int| 0 <= j < i ==> #[trigger] self.vars@[j]@ != v@,
            decreases n - i,
        {
            if self.vars[i] == vs {
                proof {
                    let names = self.var_names();
                    assert(names[i as int] == v@);
                    assert(names.contains(v@));
                    let k = name_id_for(names, v@);
                    assert(0 <= k < names.len() && names[k] == v@);
                    assert(k == i) by {
                        if k != i {
                            assert(names[k] != names[i as int]);
                        }
                    }
                    assert(add_name_seq(names, v@) == names);
                }
                return Var(i as u32);
            }
            i = i + 1;
        }
        self.vars.push(vs);
        proof {
            assert(self.var_names() =~= old(self).var_names().push(v@));
            assert(!old(self).var_names().contains(v@));
        }
        Var(n as u32)
    }

    /// Every term that was valid keeps its view and its rank across a store
    /// extension.
    pub open spec fn rank_preserved(self, pre: Self) -> bool {
        forall|t: Term|
            #[trigger] pre.valid_term(t) ==> {
                &&& self.valid_term(t)
                &&& self.view_of(t) == pre.view_of(t)
                &&& self.rank(t) == pre.rank(t)
            }
    }

    /// Record an application pair, returning the existing handle when the
    /// store already holds it and a fresh one otherwise.
    #[verifier::loop_isolation(false)]
    fn hcons_app_(&mut self, f: Term, a: Term) -> (r: Term)
        requires
            old(self).wf(),
            old(self).valid_term(f),
            old(self).valid_term(a),
            old(self).n_apps() + old(self).n_lams() < u32::MAX,
        ensures
            final(self).wf(),
            final(self).apps() == add_pair_seq(old(self).apps(), (f, a)),
            r == app_term(pair_id_for(old(self).apps(), (f, a))),
            final(self).valid_term(r),
            final(self).view_of(r) == TermView::App(f, a),
            final(self).lambdas() == old(self).lambdas(),
            final(self).var_names() == old(self).var_names(),
            final(self).rank_preserved(*old(self)),
    {
        let p = (f, a);
        let n = self.apps.len();
        let mut i: usize = 0;
        while i < n
            invariant
                i <= n,
                forall|j: int| 0 <= j < i ==> self.apps@[j] != p,
            decreases n - i,
        {
            let q = self.apps[i];
            if q.0 == f && q.1 == a {
                proof {
                    let s = self.apps@;
                    assert(s[i as int] == p);
                    assert(s.contains(p));
                    let k = pair_id_for(s, p);
                    assert(0 <= k < s.len() && s[k] == p);
                    assert(k == i) by {
                        if k != i {
                            assert(s[k] != s[i as int]);
                        }
                    }
                    assert(add_pair_seq(s, p) == s);
                }
                return Term(Kind::App, i as u32);
            }
            i = i + 1;
        }
        self.apps.push(p);
        proof {
            assert(!old(self).apps().contains(p));
            let rf = old(self).rank(f);
            let ra = old(self).rank(a);
            let rk: nat = if rf >= ra {
                rf + 1
            } else {
                ra + 1
            };
            self.apps_rank@ = old(self).apps_rank@.push(rk);
        }
        Term(Kind::App, n as u32)
    }

    /// Record a lambda pair, returning the existing handle when the store
    /// already holds it and a fresh one otherwise.
    #[verifier::loop_isolation(false)]
    fn hcons_lam_(&mut self, tyv: Term, bod: Term) -> (r: Term)
        requires
            old(self).wf(),
            old(self).valid_term(tyv),
            old(self).valid_term(bod),
            old(self).n_apps() + old(self).n_lams() < u32::MAX,
        ensures
            final(self).wf(),
            final(self).lambdas() == add_pair_seq(old(self).lambdas(), (tyv, bod)),
            r == lam_term(pair_id_for(old(self).lambdas(), (tyv, bod))),
            final(self).valid_term(r),
            final(self).view_of(r) == TermView::Lam(tyv, bod),
            final(self).apps() == old(self).apps(),
            final(self).var_names() == old(self).var_names(),
            final(self).rank_preserved(*old(self)),
    {
        let p = (tyv, bod);
        let n = self.lambdas.len();
        let mut i: usize = 0;
        while i < n
            invariant
                i <= n,
                forall|j: int| 0 <= j < i ==> self.lambdas@[j] != p,
            decreases n - i,
        {
            let q = self.lambdas[i];
            if q.0 == tyv && q.1 == bod {
                proof {
                    let s = self.lambdas@;
                    assert(s[i as int] == p);
                    assert(s.contains(p));
                    let k = pair_id_for(s, p);
                    assert(0 <= k < s.len() && s[k] == p);
                    assert(k == i) by {
                        if k != i {
                            assert(s[k] != s[i as int]);
                        }
                    }
                    assert(add_pair_seq(s, p) == s);
                }
                return Term(Kind::Lam, i as u32);
            }
            i = i + 1;
        }
        self.lambdas.push(p);
        proof {
            assert(!old(self).lambdas().contains(p));
            let rf = old(self).rank(tyv);
            let ra = old(self).rank(bod);
            let rk: nat = if rf >= ra {
                rf + 1
            } else {
                ra + 1
            };
            self.lams_rank@ = old(self).lams_rank@.push(rk);
        }
        Term(Kind::Lam, n as u32)
    }

    /// The term for the variable named `v`, interning the name on first use.
    pub fn var(&mut self, v: &str) -> (r: Term)
        requires
            old(self).wf(),
            old(self).n_vars() < u32::MAX,
        ensures
            final(self).wf(),
            final(self).var_names() == add_name_seq(old(self).var_names(), v@),
            r == var_term(var_with_id(name_id_for(old(self).var_names(), v@))),
            final(self).valid_term(r),
            final(self).view_of(r) == TermView::Var(var_with_id(name_id_for(old(self).var_names(), v@))),
            final(self).spec_var_name(var_with_id(name_id_for(old(self).var_names(), v@))) == v@,
            final(self).apps() == old(self).apps(),
            final(self).lambdas() == old(self).lambdas(),
            final(self).rank_preserved(*old(self)),
    {
        let w = self.hcons_var_(v);
        proof {
            assert(w.id() <= u32::MAX);
        }
        Term(Kind::Var, w.0)
    }

    /// The term for the de Bruijn index `idx`; the store is untouched.
    pub fn db_var(&mut self, idx: u16) -> (r: Term)
        requires
            old(self).wf(),
        ensures
            *final(self) == *old(self),
            r == db_term(idx),
            final(self).valid_term(r),
            final(self).view_of(r) == TermView::DBVar(idx),
    {
        Term(Kind::DBVar, idx as u32)
    }

    /// The application of `f` to `a`, hashconsed.
    pub fn app(&mut self, f: Term, a: Term) -> (r: Term)
        requires
            old(self).wf(),
            old(self).valid_term(f),
            old(self).valid_term(a),
            old(self).n_apps() + old(self).n_lams() < u32::MAX,
        ensures
            final(self).wf(),
            final(self).apps() == add_pair_seq(old(self).apps(), (f, a)),
            r == app_term(pair_id_for(old(self).apps(), (f, a))),
            final(self).valid_term(r),
            final(self).view_of(r) == TermView::App(f, a),
            final(self).lambdas() == old(self).lambdas(),
            final(self).var_names() == old(self).var_names(),
            final(self).rank_preserved(*old(self)),
    {
        self.hcons_app_(f, a)
    }

    /// The left-nested application of `f` to each argument in turn.
    pub fn app_l(&mut self, f: Term, args: &[Term]) -> (r: Term)
        requires
            old(self).wf(),
            old(self).valid_term(f),
            forall|i: int| 0 <= i < args@.len() ==> old(self).valid_term(#[trigger] args@[i]),
            old(self).n_apps() + old(self).n_lams() + args@.len() <= u32::MAX,
        ensures
            final(self).wf(),
            final(self).apps() == app_fold_apps(old(self).apps(), f, args@),
            r == app_fold_term(old(self).apps(), f, args@),
            final(self).valid_term(r),
            final(self).lambdas() == old(self).lambdas(),
            final(self).var_names() == old(self).var_names(),
            final(self).rank_preserved(*old(self)),
    {
        let r = self.app_fold_from(f, args, 0);
        proof {
            assert(args@.skip(0) =~= args@);
        }
        r
    }

    /// Fold the application spine over the arguments from position `i` on.
    #[verifier::rlimit(50)]
    fn app_fold_from(&mut self, t: Term, args: &[Term], i: usize) -> (r: Term)
        requires
            old(self).wf(),
            old(self).valid_term(t),
            i <= args@.len(),
            forall|k: int| i <= k < args@.len() ==> old(self).valid_term(#[trigger] args@[k]),
            old(self).n_apps() + old(self).n_lams() + (args@.len() - i) <= u32::MAX,
        ensures
            final(self).wf(),
            final(self).apps() == app_fold_apps(old(self).apps(), t, args@.skip(i as int)),
            r == app_fold_term(old(self).apps(), t, args@.skip(i as int)),
            final(self).valid_term(r),
            final(self).lambdas() == old(self).lambdas(),
            final(self).var_names() == old(self).var_names(),
            final(self).rank_preserved(*old(self)),
        decreases args@.len() - i,
    {
        if i >= args.len() {
            proof {
                assert(args@.skip(i as int) =~= Seq::<Term>::empty());
                lemma_fold_empty(self.apps(), t, args@.skip(i as int));
            }
            return t;
        }
        let a = args[i];
        let ghost pre = *self;
        let t2 = self.hcons_app_(t, a);
        let ghost mid = *self;
        proof {
            assert forall|k: int| i + 1 <= k < args@.len() implies mid.valid_term(
                #[trigger] args@[k],
            ) by {
                assert(pre.valid_term(args@[k]));
            }
        }
        let r = self.app_fold_from(t2, args, i + 1);
        proof {
            Self::lemma_rank_preserved_trans_(pre, mid, *self);
            lemma_fold_step(pre.apps(), t, args@, i as int);
        }
        r
    }


    /// Preservation of term meaning is transitive across two store
    /// extensions.
    proof fn lemma_rank_preserved_trans_(s0: Self, s1: Self, s2: Self)
        requires
            s1.rank_preserved(s0),
            s2.rank_preserved(s1),
        ensures
            s2.rank_preserved(s0),
    {
        assert forall|t: Term| s0.valid_term(t) implies {
            &&& #[trigger] s2.valid_term(t)
            &&& s2.view_of(t) == s0.view_of(t)
            &&& s2.rank(t) == s0.rank(t)
        } by {
            assert(s1.valid_term(t) && s1.view_of(t) == s0.view_of(t) && s1.rank(t) == s0.rank(
                t,
            ));
            assert(s2.valid_term(t) && s2.view_of(t) == s1.view_of(t) && s2.rank(t) == s1.rank(
                t,
            ));
        }
    }

    /// The lambda with argument type `tyv` and body `bod`, hashconsed.
    pub fn lam(&mut self, tyv: Term, bod: Term) -> (r: Term)
        requires
            old(self).wf(),
            old(self).valid_term(tyv),
            old(self).valid_term(bod),
            old(self).n_apps() + old(self).n_lams() < u32::MAX,
        ensures
            final(self).wf(),
            final(self).lambdas() == add_pair_seq(old(self).lambdas(), (tyv, bod)),
            r == lam_term(pair_id_for(old(self).lambdas(), (tyv, bod))),
            final(self).valid_term(r),
            final(self).view_of(r) == TermView::Lam(tyv, bod),
            final(self).apps() == old(self).apps(),
            final(self).var_names() == old(self).var_names(),
            final(self).rank_preserved(*old(self)),
    {
        self.hcons_lam_(tyv, bod)
    }

    /// The term for the type of level `lvl`; the store is untouched.
    pub fn type_(&mut self, lvl: u8) -> (r: Term)
        requires
            old(self).wf(),
        ensures
            *final(self) == *old(self),
            r == type_term(lvl),
            final(self).valid_term(r),
            final(self).view_of(r) == TermView::Type(lvl),
    {
        Term(Kind::Type, lvl as u32)
    }

    /// Access the given term's shape.
    #[inline]
    pub fn view(&self, t: Term) -> (r: TermView)
        requires
            self.wf(),
            self.valid_term(t),
        ensures
            r == self.view_of(t),
    {
        match t.0 {
            Kind::App => {
                let a = self.apps[t.1 as usize];
                TermView::App(a.0, a.1)
            },
            Kind::Lam => {
                let a = self.lambdas[t.1 as usize];
                TermView::Lam(a.0, a.1)
            },
            Kind::Type => TermView::Type(t.1 as u8),
            Kind::Var => TermView::Var(Var(t.1)),
            Kind::DBVar => TermView::DBVar(t.1 as u16),
        }
    }

    /// The characters printed for a valid term: applications and lambdas
    /// parenthesized and recursive, variables by their interned name, de
    /// Bruijn indices as `db` followed by the index in decimal, and every
    /// type as the word `type`.
    pub open spec fn print_spec(self, t: Term) -> Seq<char>
        decreases self.rank(t),
        when self.wf() && self.valid_term(t)
    {
        match self.view_of(t) {
            TermView::App(f, a) => seq!['('] + self.print_spec(f) + seq![' '] + self.print_spec(a)
                + seq![')'],
            TermView::Lam(tyv, bod) => seq!['(', '\\', '0', ':'] + self.print_spec(tyv)
                + seq![' ', '-', '>', ' '] + self.print_spec(bod) + seq![')'],
            TermView::Var(v) => self.spec_var_name(v),
            TermView::DBVar(n) => seq!['d', 'b'] + dec_str(n as nat),
            TermView::Type(_) => seq!['t', 'y', 'p', 'e'],
        }
    }

    /// Append the printed form of a valid term to `s`.
    fn print_into_(&self, s: &mut String, t: Term)
        requires
            self.wf(),
            self.valid_term(t),
        ensures
            final(s)@ == old(s)@ + self.print_spec(t),
        decreases self.rank(t),
    {
        match self.view(t) {
            TermView::App(f, a) => {
                s.append("(");
                self.print_into_(s, f);
                s.append(" ");
                self.print_into_(s, a);
                s.append(")");
                proof {
                    reveal_strlit("(");
                    reveal_strlit(" ");
                    reveal_strlit(")");
                    assert(final(s)@ =~= old(s)@ + self.print_spec(t));
                }
            },
            TermView::Lam(tyv, bod) => {
                s.append("(\\0:");
                self.print_into_(s, tyv);
                s.append(" -> ");
                self.print_into_(s, bod);
                s.append(")");
                proof {
                    reveal_strlit("(\\0:");
                    reveal_strlit(" -> ");
                    reveal_strlit(")");
                    assert(final(s)@ =~= old(s)@ + self.print_spec(t));
                }
            },
            TermView::Var(v) => {
                let name = self.var_name(v);
                s.append(name.as_str());
            },
            TermView::DBVar(n) => {
                s.append("db");
                push_u16_decimal(s, n);
                proof {
                    reveal_strlit("db");
                    assert(final(s)@ =~= old(s)@ + self.print_spec(t));
                }
            },
            TermView::Type(_) => {
                s.append("type");
                proof {
                    reveal_strlit("type");
                    assert(final(s)@ =~= old(s)@ + self.print_spec(t));
                }
            },
        }
    }

    /// Print a valid term.
    pub fn print(&self, t: Term) -> (r: String)
        requires
            self.wf(),
            self.valid_term(t),
        ensures
            r@ == self.print_spec(t),
    {
        let mut s = String::new();
        self.print_into_(&mut s, t);
        proof {
            assert(s@ =~= Seq::<char>::empty() + self.print_spec(t));
            assert(Seq::<char>::empty() + self.print_spec(t) =~= self.print_spec(t));
        }
        s
    }

    /// The name a variable handle was interned for.
    pub fn var_name(&self, v: Var) -> (r: &String)
        requires
            self.wf(),
            (v.id() as int) < self.n_vars(),
        ensures
            r@ == self.spec_var_name(v),
    {
        &self.vars[v.0 as usize]
    }
}

} // verus!
