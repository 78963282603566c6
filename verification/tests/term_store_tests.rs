use term_bank::coc_terms;
use term_bank::soa_term;

#[test]
fn coc_builtins() {
    let tb = coc_terms::TermBank::new();
    let bool_ty = tb.bool_ty();
    let t = tb.bool(true);
    let f = tb.bool(false);
    assert_ne!(t, f);
    assert_ne!(t, bool_ty);
    assert_ne!(f, bool_ty);
    assert_eq!(tb.bool(true), t);
}

#[test]
fn coc_var_is_hashconsed() {
    let mut tb = coc_terms::TermBank::new();
    let v = coc_terms::Var { idx: 0, ty: tb.bool_ty() };
    let t1 = tb.var(v);
    let t2 = tb.var(v);
    assert_eq!(t1, t2);
    let view = tb.view(t1);
    assert_eq!(coc_terms::TermKind::Var(v), view.kind);
    assert_eq!(v.ty, view.ty);
}

#[test]
fn coc_app_types_by_head() {
    let mut tb = coc_terms::TermBank::new();
    let v = tb.var(coc_terms::Var { idx: 0, ty: tb.bool_ty() });
    let a = tb.app(v, tb.bool(true));
    let view = tb.view(a);
    assert_eq!(coc_terms::TermKind::App(v, tb.bool(true)), view.kind);
    assert_eq!(tb.view(v).ty, view.ty);
    // the same application built again is the same term
    let b = tb.app(v, tb.bool(true));
    assert_eq!(a, b);
}

#[test]
fn coc_app_slice_folds_left() {
    let mut tb = coc_terms::TermBank::new();
    let v1 = tb.var(coc_terms::Var { idx: 0, ty: tb.bool_ty() });
    let args = [tb.bool(true), tb.bool(false)];
    let t = tb.app_slice(v1, &args);
    // t == app(app(v1, true), false)
    let view = tb.view(t);
    match view.kind {
        coc_terms::TermKind::App(f, a) => {
            assert_eq!(tb.bool(false), a);
            let inner = tb.view(f);
            assert_eq!(coc_terms::TermKind::App(v1, tb.bool(true)), inner.kind);
        },
        _ => panic!("expected an application"),
    }
    // one view per distinct term, in handle order
    let all = tb.iter_terms();
    assert_eq!(7, all.len());
    for (term, view) in all {
        assert_eq!(tb.view(term), view);
    }
}

#[test]
fn soa_hashconsing_and_views() {
    let mut tst = soa_term::TermStore::new();
    let ty = tst.type_(0);
    let f = tst.var("f");
    let a = tst.var("a");
    assert_eq!(f, tst.var("f"));
    assert_ne!(f, a);
    let v = tst.app(f, a);
    assert_eq!(v, tst.app(f, a));
    assert_eq!(1, tst.n_composite_terms());
    let l = tst.lam(ty, v);
    assert_eq!(2, tst.n_composite_terms());
    assert_eq!(soa_term::TermView::App(f, a), tst.view(v));
    assert_eq!(soa_term::TermView::Lam(ty, v), tst.view(l));
    assert_eq!(soa_term::TermView::Type(0), tst.view(ty));
}

#[test]
fn soa_print_forms() {
    let mut tst = soa_term::TermStore::new();
    let ty = tst.type_(0);
    let f = tst.var("f");
    let a = tst.var("a");
    let v = tst.app(f, a);
    assert_eq!("(f a)", tst.print(v));
    let db = tst.db_var(0);
    assert_eq!("db0", tst.print(db));
    let db12 = tst.db_var(12);
    assert_eq!("db12", tst.print(db12));
    assert_eq!("type", tst.print(ty));
    let body = tst.app(f, db);
    let lam = tst.lam(ty, body);
    assert_eq!("(\\0:type -> (f db0))", tst.print(lam));
}

#[test]
fn soa_app_l_builds_spine() {
    let mut tst = soa_term::TermStore::new();
    let f = tst.var("f");
    let a = tst.var("a");
    let db0 = tst.db_var(0);
    let t = tst.app_l(f, &[a, db0]);
    assert_eq!("((f a) db0)", tst.print(t));
    assert_eq!(2, tst.n_composite_terms());
    // the fold reuses recorded applications
    let again = tst.app_l(f, &[a, db0]);
    assert_eq!(t, again);
    assert_eq!(2, tst.n_composite_terms());
}
