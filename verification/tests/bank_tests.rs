use term_bank::bank::{Bank, Generation, MAX_INDEX};
use term_bank::error::Error;

#[test]
fn bank_test_size() {
    assert_eq!(std::mem::size_of::<Generation>(), 1);
}

#[test]
fn bank_it_allocates() {
    let mut bank: Bank<String> = Bank::new();

    let str1 = bank.allocate("abc".to_string()).unwrap();
    let str2 = bank.allocate("hello".to_string()).unwrap();

    assert_eq!(2, bank.len());
    assert_ne!(str1, str2);

    assert_eq!("abc", bank.get(str1));
    assert_eq!("hello", bank.get(str2));

    bank.free(str1).unwrap();

    assert_eq!(None, bank.try_get(str1));
    assert_eq!("hello", bank.get(str2));

    let str3 = bank.allocate_with(|| "wowza".to_string()).unwrap();
    assert_ne!(str2, str3);
    assert_ne!(str1, str3);
    assert_eq!("wowza", bank.get(str3));
}

#[test]
fn bank_lotsa_allocs() {
    let mut bank = Bank::new();

    let n: usize = 1_000_000;
    for _attempt in 0..10 {
        let mut v = vec![];
        for i in 0..n {
            let idx = bank.allocate(i).unwrap();
            v.push(idx);
        }
        assert_eq!(n, bank.len());

        for (i, &x) in v.iter().enumerate() {
            assert_eq!(i, bank.get_copy(x));
        }

        for x in v.into_iter() {
            bank.free(x).unwrap();
        }
        assert_eq!(0, bank.len());
    }
}

#[test]
fn round_trip_after_allocation() {
    let mut bank: Bank<Vec<u8>> = Bank::new();
    let h = bank.allocate(vec![1, 2, 3]).unwrap();
    assert_eq!(&vec![1, 2, 3], bank.get(h));
    assert_eq!(Some(&vec![1u8, 2, 3]), bank.try_get(h));
}

#[test]
fn isolation_of_equal_values() {
    let mut bank: Bank<u64> = Bank::new();
    let h1 = bank.allocate(7).unwrap();
    let h2 = bank.allocate(7).unwrap();
    assert_ne!(h1, h2);
    assert_eq!(2, bank.len());
    assert_eq!(7, *bank.get(h1));
    assert_eq!(7, *bank.get(h2));
}

#[test]
fn free_invalidates_handle() {
    let mut bank: Bank<u32> = Bank::new();
    let h1 = bank.allocate(10).unwrap();
    let h2 = bank.allocate(20).unwrap();
    bank.free(h1).unwrap();
    assert_eq!(None, bank.try_get(h1));
    assert_eq!(Some(&20), bank.try_get(h2));
}

#[test]
fn slot_reuse_changes_generation() {
    let mut bank: Bank<&'static str> = Bank::new();
    let h1 = bank.allocate("old").unwrap();
    bank.free(h1).unwrap();
    let h2 = bank.allocate("new").unwrap();
    // the freed slot is reused, but under a fresh generation
    assert_eq!(h1.index(), h2.index());
    assert_ne!(h1.generation(), h2.generation());
    assert_ne!(h1, h2);
    assert_eq!(None, bank.try_get(h1));
    assert_eq!(Some(&"new"), bank.try_get(h2));
}

#[test]
fn double_free_rejected() {
    let mut bank: Bank<u32> = Bank::new();
    let keep = bank.allocate(1).unwrap();
    let h = bank.allocate(2).unwrap();
    bank.free(h).unwrap();
    let len_before = bank.len();
    // the slot is free again: the second free reports an invalid index
    assert!(matches!(bank.free(h), Err(Error::InvalidIndex(_))));
    assert_eq!(len_before, bank.len());
    assert_eq!(Some(&1), bank.try_get(keep));

    // once the slot is reused, the stale handle fails on its generation
    let h2 = bank.allocate(3).unwrap();
    assert_eq!(h.index(), h2.index());
    assert!(matches!(bank.free(h), Err(Error::WrongGeneration(_))));
    assert_eq!(Some(&3), bank.try_get(h2));
}

#[test]
fn free_out_of_range_rejected() {
    let mut small: Bank<u8> = Bank::new();
    let mut large: Bank<u8> = Bank::new();
    let _ = large.allocate(1).unwrap();
    let h = large.allocate(2).unwrap();
    // a handle from another arena whose slot this arena never grew
    assert!(matches!(small.free(h), Err(Error::InvalidIndex(_))));
    assert_eq!(0, small.len());
}

#[test]
fn count_tracks_live_handles() {
    let mut bank: Bank<usize> = Bank::new();
    let mut handles = vec![];
    for i in 0..100 {
        handles.push(bank.allocate(i).unwrap());
        assert_eq!(i + 1, bank.len());
    }
    for (k, h) in handles.iter().enumerate() {
        bank.free(*h).unwrap();
        assert_eq!(100 - k - 1, bank.len());
    }
    // failed operations leave the count unchanged
    assert!(bank.free(handles[0]).is_err());
    assert_eq!(0, bank.len());
}

#[test]
fn capacity_boundary() {
    let mut bank: Bank<u32> = Bank::new();
    for i in 0..MAX_INDEX {
        assert!(bank.allocate(i as u32).is_ok());
    }
    assert_eq!(MAX_INDEX, bank.len());
    assert!(matches!(bank.allocate(0), Err(Error::Full)));
    assert_eq!(MAX_INDEX, bank.len());
}

#[test]
fn bulk_churn_reuses_slots() {
    let mut bank: Bank<usize> = Bank::new();
    let n: usize = 1000;
    let mut handles = vec![];
    for i in 0..n {
        handles.push(bank.allocate(i).unwrap());
    }
    for h in handles.drain(..) {
        bank.free(h).unwrap();
    }
    for i in 0..n {
        let h = bank.allocate(i).unwrap();
        // recycling: no handle points past the n slots already grown
        assert!(h.index() < n);
        handles.push(h);
    }
    assert_eq!(n, bank.len());
}

#[test]
fn handle_packing() {
    let mut bank: Bank<u8> = Bank::new();
    let h0 = bank.allocate(0).unwrap();
    let h1 = bank.allocate(1).unwrap();
    // fresh slots are handed out in table order, stamped with generation 1
    assert_eq!(0, h0.index());
    assert_eq!(1, h0.generation());
    assert_eq!(1, h1.index());
    assert_eq!(1, h1.generation());
    // one free and reuse bumps the generation of that slot only
    bank.free(h0).unwrap();
    let h2 = bank.allocate(2).unwrap();
    assert_eq!(0, h2.index());
    assert_eq!(2, h2.generation());
}
