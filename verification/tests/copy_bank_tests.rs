use term_bank::bank::Generation;
use term_bank::copy_bank::Bank;
use term_bank::error::Error;

#[test]
fn copy_bank_test_size() {
    assert_eq!(std::mem::size_of::<Generation>(), 1);
}

#[test]
fn copy_bank_it_allocates() {
    let mut bank: Bank<&'static str> = Bank::new();

    let str1 = bank.allocate("abc").unwrap();
    let str2 = bank.allocate("hello").unwrap();

    assert_eq!(2, bank.len());
    assert_ne!(str1, str2);

    assert_eq!("abc", bank.get(str1));
    assert_eq!("hello", bank.get(str2));

    bank.free(str1).unwrap();

    assert_eq!(None, bank.try_get(str1));
    assert_eq!("hello", bank.get(str2));

    let str3 = bank.allocate_with(|| "wowza").unwrap();
    assert_ne!(str2, str3);
    assert_ne!(str1, str3);
    assert_eq!("wowza", bank.get(str3));
}

#[test]
fn copy_bank_lotsa_allocs() {
    let mut bank = Bank::new();

    let n: usize = 1_000_000;
    for _attempt in 0..2 {
        let mut v = vec![];
        for i in 0..n {
            let idx = bank.allocate(i).unwrap();
            v.push(idx);
        }
        assert_eq!(n, bank.len());

        for (i, &x) in v.iter().enumerate() {
            assert_eq!(i, bank.get(x));
        }

        for x in v.into_iter() {
            bank.free(x).unwrap();
        }
        assert_eq!(0, bank.len());
    }
}

#[test]
fn copy_bank_stale_handle_rejected() {
    let mut bank: Bank<u16> = Bank::new();
    let h = bank.allocate(5).unwrap();
    bank.free(h).unwrap();
    let h2 = bank.allocate(6).unwrap();
    assert_eq!(h.index(), h2.index());
    assert_eq!(None, bank.try_get(h));
    assert_eq!(Some(6), bank.try_get(h2));
    assert!(matches!(bank.free(h), Err(Error::WrongGeneration(_))));
    assert_eq!(1, bank.len());
}
