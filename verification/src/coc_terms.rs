use vstd::prelude::*;

verus! {

/// A term of the calculus: a compact handle into the bank's view table.
/// Two terms with the same handle are the same term.
#[derive(Copy, Clone, Debug, Eq, PartialEq, Hash, Ord, PartialOrd, Structural)]
pub struct Term(u32);

/// A universe level.
#[derive(Copy, Clone, Debug, Eq, PartialEq, Hash, Ord, PartialOrd, Structural)]
pub struct Level(pub u8);

/// A constant: an identifier together with its type.
#[derive(Copy, Clone, Debug, Eq, PartialEq, Hash, Ord, PartialOrd, Structural)]
pub struct Const {
    pub idx: u32,
    pub ty: Term,
}

/// A variable: an identifier together with its type.
#[derive(Copy, Clone, Debug, Eq, PartialEq, Hash, Ord, PartialOrd, Structural)]
pub struct Var {
    pub idx: u32,
    pub ty: Term,
}

/// The shape of a term.
#[derive(Copy, Clone, Debug, Eq, PartialEq, Hash, Structural)]
pub enum TermKind {
    Type,
    Var(Var),
    Const(Const),
    App(Term, Term),
    Lam(Term, Term),
    Pi(Term, Term),
}

/// What the bank records for one term: its shape and its type.
#[derive(Copy, Clone, Debug, Eq, PartialEq, Hash, Structural)]
pub struct TermView {
    pub kind: TermKind,
    pub ty: Term,
}

/// A hashconsing term bank: holds one view per distinct term, so that
/// building the same view twice yields the same handle. Slots 0 to 3 hold
/// the builtin terms (the type of types, the booleans' type, true, false).
pub struct TermBank(TermBankInner);

/// The bank's state: the view table and the builtin handles.
pub struct TermBankInner {
    views: Vec<TermView>,
    t_type: Term,
    t_bool: Term,
    t_true: Term,
    t_false: Term,
}

/// The term whose handle is `i`.
pub closed spec fn term_with_id(i: int) -> Term {
    Term(i as u32)
}

/// The view table after recording `tv`: unchanged when `tv` is already
/// present, extended by `tv` otherwise.
pub open spec fn add_view_seq(s: Seq<TermView>, tv: TermView) -> Seq<TermView> {
    if s.contains(tv) {
        s
    } else {
        s.push(tv)
    }
}

/// The position at which `tv` is (or becomes) recorded in `s`.
pub open spec fn term_id_for(s: Seq<TermView>, tv: TermView) -> int {
    if s.contains(tv) {
        choose|i: int| 0 <= i < s.len() && s[i] == tv
    } else {
        s.len() as int
    }
}

/// The term a bank with view table `s` hands out for the view `tv`.
pub open spec fn term_for(s: Seq<TermView>, tv: TermView) -> Term {
    term_with_id(term_id_for(s, tv))
}

/// The view recorded for one application step: the applied term's shape,
/// typed (without checking) by the type of its head.
pub open spec fn app_step_view(s: Seq<TermView>, f: Term, a: Term) -> TermView {
    TermView { kind: TermKind::App(f, a), ty: s[f.id() as int].ty }
}

/// The view table after folding an application spine over `args`.
pub open spec fn app_chain_views(s: Seq<TermView>, f: Term, args: Seq<Term>) -> Seq<TermView>
    decreases args.len(),
{
    if args.len() == 0 {
        s
    } else {
        let tv = app_step_view(s, f, args[0]);
        app_chain_views(add_view_seq(s, tv), term_for(s, tv), args.drop_first())
    }
}

/// The term resulting from folding an application spine over `args`.
pub open spec fn app_chain_term(s: Seq<TermView>, f: Term, args: Seq<Term>) -> Term
    decreases args.len(),
{
    if args.len() == 0 {
        f
    } else {
        let tv = app_step_view(s, f, args[0]);
        app_chain_term(add_view_seq(s, tv), term_for(s, tv), args.drop_first())
    }
}

impl Term {
    /// The handle's position in the bank's view table.
    pub closed spec fn id(self) -> u32 {
        self.0
    }
}

/// How one hashconsing insertion relates the bank before and after it, the
/// view recorded and the term returned: the table gains the view unless it
/// already held it, the returned term names exactly that view, and every
/// term that was valid before keeps its view.
pub open spec fn add_view_transition(
    pre: TermBank,
    post: TermBank,
    tv: TermView,
    r: Term,
) -> bool {
    &&& post.views() == add_view_seq(pre.views(), tv)
    &&& r == term_for(pre.views(), tv)
    &&& post.valid_term(r)
    &&& post.view_of(r) == tv
    &&& pre.views().is_prefix_of(post.views())
}

impl TermBank {
    /// The view table: one entry per distinct term, indexed by term handle.
    pub closed spec fn views(self) -> Seq<TermView> {
        self.0.views@
    }

    /// A term handle is valid when it points into the view table.
    pub open spec fn valid_term(self, t: Term) -> bool {
        t.id() < self.views().len()
    }

    /// The view recorded for a valid term.
    pub open spec fn view_of(self, t: Term) -> TermView {
        self.views()[t.id() as int]
    }

    /// The builtin type of types.
    pub closed spec fn spec_type_term(self) -> Term {
        self.0.t_type
    }

    /// The builtin type of booleans.
    pub closed spec fn spec_bool_ty(self) -> Term {
        self.0.t_bool
    }

    /// The builtin true constant.
    pub closed spec fn spec_true_term(self) -> Term {
        self.0.t_true
    }

    /// The builtin false constant.
    pub closed spec fn spec_false_term(self) -> Term {
        self.0.t_false
    }

    /// The internal invariant: the view table holds no view twice, fits the
    /// 32-bit handle space, and begins with the four builtin entries that
    /// the builtin handles point at.
    pub closed spec fn wf(self) -> bool {
        &&& self.0.views@.len() >= 4
        &&& self.0.views@.len() <= u32::MAX
        &&& self.0.views@.no_duplicates()
        &&& self.0.t_type == Term(0)
        &&& self.0.t_bool == Term(1)
        &&& self.0.t_true == Term(2)
        &&& self.0.t_false == Term(3)
        &&& self.0.views@[0] == (TermView { kind: TermKind::Type, ty: Term(0) })
        &&& self.0.views@[1] == (TermView {
            kind: TermKind::Const(Const { idx: 0, ty: Term(0) }),
            ty: Term(0),
        })
        &&& self.0.views@[2] == (TermView {
            kind: TermKind::Const(Const { idx: 1, ty: Term(1) }),
            ty: Term(0),
        })
        &&& self.0.views@[3] == (TermView {
            kind: TermKind::Const(Const { idx: 2, ty: Term(1) }),
            ty: Term(0),
        })
    }

    /// Record a builtin view during construction, without a duplicate scan.
    fn add_builtin_(&mut self, kind: TermKind, ty: Term) -> (t: Term)
        requires
            old(self).views().len() < 4,
            !old(self).views().contains(TermView { kind, ty }),
        ensures
            final(self).views() == old(self).views().push(TermView { kind, ty }),
            t.id() == old(self).views().len(),
            final(self).0.t_type == old(self).0.t_type,
            final(self).0.t_bool == old(self).0.t_bool,
            final(self).0.t_true == old(self).0.t_true,
            final(self).0.t_false == old(self).0.t_false,
    {
        let n = self.0.views.len();
        let tv = TermView { kind, ty };
        self.0.views.push(tv);
        Term(n as u32)
    }

    /// Record a view, returning the existing handle when the bank already
    /// holds it and a fresh handle otherwise.
    #[verifier::loop_isolation(false)]
    fn add_term_(&mut self, kind: TermKind, ty: Term) -> (r: Term)
        requires
            old(self).wf(),
            old(self).views().len() < u32::MAX,
        ensures
            final(self).wf(),
            add_view_transition(*old(self), *final(self), TermView { kind, ty }, r),
            final(self).views().len() <= old(self).views().len() + 1,
    {
        let tv = TermView { kind, ty };
        let n = self.0.views.len();
        let mut i: usize = 0;
        while i < n
            invariant
                i <= n,
                n == self.0.views@.len(),
                forall|j: int| 0 <= j < i ==> self.0.views@[j] != tv,
            decreases n - i,
        {
            if self.0.views[i] == tv {
                proof {
                    let s = self.0.views@;
                    assert(s[i as int] == tv);
                    assert(s.contains(tv));
                    let k = term_id_for(s, tv);
                    assert(0 <= k < s.len() && s[k] == tv);
                    // the view table holds no view twice, so the found
                    // position is the recorded one
                    assert(k == i) by {
                        if k != i {
                            assert(s[k] != s[i as int]);
                        }
                    }
                    assert(add_view_seq(s, tv) == s);
                }
                return Term(i as u32);
            }
            i = i + 1;
        }
        proof {
            assert(!self.0.views@.contains(tv));
        }
        self.0.views.push(tv);
        proof {
            assert(old(self).views().is_prefix_of(self.views()));
        }
        Term(n as u32)
    }

    /// A new bank holding exactly the four builtin terms.
    pub fn new() -> (r: Self)
        ensures
            r.wf(),
            r.views().len() == 4,
    {
        let dummy = Term(0);
        let mut tb = TermBank(
            TermBankInner {
                views: Vec::new(),
                t_type: dummy,
                t_bool: dummy,
                t_true: dummy,
                t_false: dummy,
            },
        );
        let t_type = tb.add_builtin_(TermKind::Type, Term(0));
        tb.0.t_type = t_type;
        let t_bool = tb.add_builtin_(TermKind::Const(Const { idx: 0, ty: t_type }), t_type);
        tb.0.t_bool = t_bool;
        let t_true = tb.add_builtin_(TermKind::Const(Const { idx: 1, ty: t_bool }), t_type);
        tb.0.t_true = t_true;
        let t_false = tb.add_builtin_(TermKind::Const(Const { idx: 2, ty: t_bool }), t_type);
        tb.0.t_false = t_false;
        tb
    }

    /// The builtin type of booleans.
    #[inline]
    pub fn bool_ty(&self) -> (r: Term)
        requires
            self.wf(),
        ensures
            r == self.spec_bool_ty(),
            self.valid_term(r),
    {
        self.0.t_bool
    }

    /// The builtin boolean constant for `b`.
    #[inline]
    pub fn bool(&self, b: bool) -> (r: Term)
        requires
            self.wf(),
        ensures
            r == (if b {
                self.spec_true_term()
            } else {
                self.spec_false_term()
            }),
            self.valid_term(r),
    {
        if b {
            self.0.t_true
        } else {
            self.0.t_false
        }
    }

    /// The term for variable `v`, typed by the variable's own type.
    #[inline]
    pub fn var(&mut self, v: Var) -> (r: Term)
        requires
            old(self).wf(),
            old(self).views().len() < u32::MAX,
        ensures
            final(self).wf(),
            add_view_transition(
                *old(self),
                *final(self),
                TermView { kind: TermKind::Var(v), ty: v.ty },
                r,
            ),
            final(self).views().len() <= old(self).views().len() + 1,
    {
        self.add_term_(TermKind::Var(v), v.ty)
    }

    /// The application of `f` to `arg`, typed (without checking) by the type
    /// recorded for `f`.
    #[inline]
    pub fn app(&mut self, f: Term, arg: Term) -> (r: Term)
        requires
            old(self).wf(),
            old(self).valid_term(f),
            old(self).views().len() < u32::MAX,
        ensures
            final(self).wf(),
            add_view_transition(
                *old(self),
                *final(self),
                app_step_view(old(self).views(), f, arg),
                r,
            ),
            final(self).views().len() <= old(self).views().len() + 1,
    {
        let ty = self.view(f).ty;
        self.add_term_(TermKind::App(f, arg), ty)
    }

    /// The left-nested application of `f` to each argument in turn.
    #[verifier::loop_isolation(false)]
    pub fn app_slice(&mut self, f: Term, args: &[Term]) -> (r: Term)
        requires
            old(self).wf(),
            old(self).valid_term(f),
            old(self).views().len() + args@.len() <= u32::MAX,
        ensures
            final(self).wf(),
            final(self).views() == app_chain_views(old(self).views(), f, args@),
            r == app_chain_term(old(self).views(), f, args@),
            old(self).views().is_prefix_of(final(self).views()),
            final(self).valid_term(r),
    {
        let mut t = f;
        let n = args.len();
        let mut i: usize = 0;
        proof {
            assert(args@.skip(0) =~= args@);
        }
        while i < n
            invariant
                i <= n,
                n == args@.len(),
                self.wf(),
                self.valid_term(t),
                self.views().len() + (n - i) <= u32::MAX,
                app_chain_views(self.views(), t, args@.skip(i as int)) == app_chain_views(
                    old(self).views(),
                    f,
                    args@,
                ),
                app_chain_term(self.views(), t, args@.skip(i as int)) == app_chain_term(
                    old(self).views(),
                    f,
                    args@,
                ),
                old(self).views().is_prefix_of(self.views()),
            decreases n - i,
        {
            let ghost pre_views = self.views();
            let ghost pre_t = t;
            let a = args[i];
            t = self.app(t, a);
            i = i + 1;
            proof {
                assert(args@.skip(i - 1).drop_first() =~= args@.skip(i as int));
                assert(args@.skip(i - 1)[0] == args@[i - 1]);
            }
        }
        proof {
            assert(args@.skip(n as int) =~= Seq::<Term>::empty());
        }
        t
    }

    /// The view recorded for a valid term.
    #[inline]
    pub fn view(&self, t: Term) -> (r: TermView)
        requires
            self.wf(),
            self.valid_term(t),
        ensures
            r == self.view_of(t),
    {
        self.0.views[t.0 as usize]
    }

    /// Every term of the bank, in handle order, paired with its view.
    #[verifier::loop_isolation(false)]
    pub fn iter_terms(&self) -> (r: Vec<(Term, TermView)>)
        requires
            self.wf(),
        ensures
            r@.len() == self.views().len(),
            forall|i: int|
                0 <= i < r@.len() ==> (#[trigger] r@[i]).1 == self.views()[i] && r@[i].0.id()
                    == i,
    {
        let n = self.0.views.len();
        let mut r: Vec<(Term, TermView)> = Vec::new();
        let mut i: usize = 0;
        while i < n
            invariant
                i <= n,
                n == self.0.views@.len(),
                n <= u32::MAX,
                r@.len() == i,
                forall|j: int|
                    0 <= j < i ==> (#[trigger] r@[j]).1 == self.0.views@[j] && r@[j].0.id() == j,
            decreases n - i,
        {
            r.push((Term(i as u32), self.0.views[i]));
            i = i + 1;
        }
        r
    }
}

/// The four builtin terms of a well-formed bank are pairwise distinct, each
/// is valid, and the two boolean constants share the boolean type as their
/// recorded shape's type.
pub proof fn lemma_builtins_distinct(tb: TermBank)
    requires
        tb.wf(),
    ensures
        tb.spec_type_term() != tb.spec_bool_ty(),
        tb.spec_bool_ty() != tb.spec_true_term(),
        tb.spec_true_term() != tb.spec_false_term(),
        tb.spec_type_term() != tb.spec_true_term(),
        tb.spec_type_term() != tb.spec_false_term(),
        tb.spec_bool_ty() != tb.spec_false_term(),
        tb.valid_term(tb.spec_type_term()),
        tb.valid_term(tb.spec_bool_ty()),
        tb.valid_term(tb.spec_true_term()),
        tb.valid_term(tb.spec_false_term()),
{
}

} // verus!
