use sais::aux_index::{aux_length_exact, aux_rate_exact};
use sais::sais32::{
    bwt, bwt_aux, bwt_inplace, lcp, plcp, sais, unbwt, unbwt_aux, unbwt_inplace, Error,
    FREQ_TABLE_SIZE,
};

#[test]
fn empty_text() {
    let t: &[u8] = b"";
    let mut sa: Vec<i32> = vec![];
    sais(t, &mut sa, None).expect("sais failed");
    assert!(sa.is_empty());

    let mut u: Vec<u8> = vec![];
    let mut a: Vec<i32> = vec![];
    let i = bwt(t, &mut u, &mut a, None).expect("bwt failed");
    assert_eq!(i, 0);

    let mut s: Vec<u8> = vec![];
    let mut work = vec![0i32; 1];
    unbwt(&u, &mut s, &mut work, None, i).expect("unbwt failed");
    assert_eq!(t, s.as_slice());

    // the primary index of the empty text is zero, and nothing else is
    assert_eq!(unbwt(&u, &mut s, &mut work, None, 1), Err(Error::IllegalArguments));
}

#[test]
fn empty_text_with_samples() {
    let t: &[u8] = b"";
    let mut u: Vec<u8> = vec![];
    let mut a: Vec<i32> = vec![];
    let mut i = vec![7i32; aux_length_exact(0, 2).unwrap()];
    assert_eq!(i.len(), 1);
    bwt_aux(t, &mut u, &mut a, None, &mut i).expect("bwt failed");
    assert_eq!(i, vec![0]);

    let mut s: Vec<u8> = vec![];
    let mut work = vec![0i32; 1];
    unbwt_aux(&u, &mut s, &mut work, None, &i).expect("unbwt failed");
    assert_eq!(unbwt_aux(&u, &mut s, &mut work, None, &[1]), Err(Error::IllegalArguments));
}

#[test]
fn one_symbol() {
    let t: &[u8] = b"_";
    let mut sa = vec![5i32; 1];
    sais(t, &mut sa, None).expect("sais failed");
    assert_eq!(sa, vec![0]);

    let mut u = vec![0u8; 1];
    let i = bwt(t, &mut u, &mut sa, None).expect("bwt failed");
    assert_eq!(u, b"_");
    assert_eq!(i, 1);

    let mut s = vec![0u8; 1];
    let mut work = vec![0i32; 2];
    unbwt(&u, &mut s, &mut work, None, i).expect("unbwt failed");
    assert_eq!(s, b"_");
    assert_eq!(unbwt(&u, &mut s, &mut work, None, 0), Err(Error::IllegalArguments));
    assert_eq!(unbwt(&u, &mut s, &mut work, None, 2), Err(Error::IllegalArguments));
    assert_eq!(unbwt(&u, &mut s, &mut work, None, -1), Err(Error::IllegalArguments));
}

#[test]
fn mississippi_suffix_array() {
    let t: &[u8] = b"mississippi";
    let mut sa = vec![0i32; t.len()];
    sais(t, &mut sa, None).expect("sais failed");
    assert_eq!(sa, vec![10, 7, 4, 1, 0, 9, 8, 6, 3, 5, 2]);
}

#[test]
fn mississippi_frequency_table() {
    let t: &[u8] = b"mississippi";
    let mut sa = vec![0i32; t.len()];
    let mut freq = vec![-1i32; FREQ_TABLE_SIZE];
    sais(t, &mut sa, Some(&mut freq)).expect("sais failed");
    for c in 0..FREQ_TABLE_SIZE {
        let expected = match c as u8 {
            b'i' => 4,
            b'm' => 1,
            b'p' => 2,
            b's' => 4,
            _ => 0,
        };
        assert_eq!(freq[c], expected);
    }
}

#[test]
fn mississippi_transform() {
    let t: &[u8] = b"mississippi";
    let mut u = vec![0u8; t.len()];
    let mut a = vec![0i32; t.len()];
    let i = bwt(t, &mut u, &mut a, None).expect("bwt failed");
    assert_eq!(u, b"ipssmpissii");
    assert_eq!(i, 5);
    // the work buffer is left with the suffix array
    assert_eq!(a, vec![10, 7, 4, 1, 0, 9, 8, 6, 3, 5, 2]);

    let mut s = vec![0u8; t.len()];
    let mut work = vec![0i32; t.len() + 1];
    unbwt(&u, &mut s, &mut work, None, i).expect("unbwt failed");
    assert_eq!(s, b"mississippi");
    // the work space of the inverse is left as it was
    assert_eq!(work, vec![0i32; t.len() + 1]);
}

#[test]
fn mississippi_transform_in_place() {
    let mut t = b"mississippi".to_vec();
    let mut a = vec![0i32; t.len()];
    let i = bwt_inplace(&mut t, &mut a, None).expect("bwt failed");
    assert_eq!(t, b"ipssmpissii");
    assert_eq!(i, 5);

    let mut work = vec![0i32; t.len() + 1];
    unbwt_inplace(&mut t, &mut work, None, i).expect("unbwt failed");
    assert_eq!(t, b"mississippi");
}

#[test]
fn mississippi_samples() {
    let t: &[u8] = b"mississippi";
    assert_eq!(aux_length_exact(11, 4), Some(3));
    assert_eq!(aux_rate_exact(11, 3), Some(4));

    let mut u = vec![0u8; t.len()];
    let mut a = vec![0i32; t.len()];
    let mut i = vec![0i32; 3];
    bwt_aux(t, &mut u, &mut a, None, &mut i).expect("bwt failed");
    assert_eq!(u, b"ipssmpissii");
    // the rows of the suffixes at 0, 4 and 8
    assert_eq!(i, vec![5, 3, 7]);

    let mut s = vec![0u8; t.len()];
    let mut work = vec![0i32; t.len() + 1];
    unbwt_aux(&u, &mut s, &mut work, None, &i).expect("unbwt failed");
    assert_eq!(s, b"mississippi");

    // a sample that is not the row passed is found out
    assert_eq!(unbwt_aux(&u, &mut s, &mut work, None, &[5, 4, 7]), Err(Error::IllegalArguments));
    assert_eq!(unbwt_aux(&u, &mut s, &mut work, None, &[5, 3, -7]), Err(Error::IllegalArguments));
}

#[test]
fn mississippi_wrong_primary_index() {
    let u: &[u8] = b"ipssmpissii";
    let mut s = vec![0u8; u.len()];
    let mut work = vec![0i32; u.len() + 1];
    let mut readable = 0;
    for i in 0..=12 {
        match unbwt(u, &mut s, &mut work, None, i) {
            Ok(()) => {
                readable += 1;
                if i == 5 {
                    assert_eq!(s, b"mississippi");
                }
            }
            Err(e) => {
                assert_eq!(e, Error::IllegalArguments);
                assert_ne!(i, 5);
            }
        }
    }
    assert!(readable >= 1);
    assert_eq!(unbwt(u, &mut s, &mut work, None, 0), Err(Error::IllegalArguments));
    assert_eq!(unbwt(u, &mut s, &mut work, None, 12), Err(Error::IllegalArguments));
}

#[test]
fn mississippi_prefix_arrays() {
    let t: &[u8] = b"mississippi";
    let mut sa = vec![0i32; t.len()];
    let mut permuted = vec![0i32; t.len()];
    let mut ordered = vec![0i32; t.len()];
    sais(t, &mut sa, None).expect("sais failed");
    plcp(t, &sa, &mut permuted).expect("plcp failed");
    lcp(&permuted, &sa, &mut ordered).expect("lcp failed");
    assert_eq!(ordered, vec![0, 1, 1, 4, 0, 0, 1, 0, 2, 1, 3]);
    assert_eq!(permuted, vec![0, 4, 3, 2, 1, 1, 0, 1, 1, 0, 0]);
}

#[test]
fn repeated_byte() {
    let t = vec![b'a'; 1000];
    let mut sa = vec![0i32; t.len()];
    sais(&t, &mut sa, None).expect("sais failed");
    // a shorter suffix is a prefix of every longer one, and comes first
    for i in 0..1000 {
        assert_eq!(sa[i], 999 - i as i32);
    }

    let mut u = vec![0u8; t.len()];
    let i = bwt(&t, &mut u, &mut sa, None).expect("bwt failed");
    assert_eq!(u, t);
    assert_eq!(i, 1000);

    let mut s = vec![0u8; t.len()];
    let mut work = vec![0i32; t.len() + 1];
    unbwt(&u, &mut s, &mut work, None, i).expect("unbwt failed");
    assert_eq!(s, t);

    let mut permuted = vec![0i32; t.len()];
    let mut ordered = vec![0i32; t.len()];
    plcp(&t, &sa, &mut permuted).expect("plcp failed");
    lcp(&permuted, &sa, &mut ordered).expect("lcp failed");
    for i in 0..1000 {
        assert_eq!(ordered[i], i as i32);
    }
}

#[test]
fn free_space_is_kept() {
    let t: &[u8] = b"mississippi";
    let mut sa = vec![-3i32; t.len() + 5];
    sais(t, &mut sa, None).expect("sais failed");
    assert_eq!(&sa[..11], &[10, 7, 4, 1, 0, 9, 8, 6, 3, 5, 2]);
    assert_eq!(&sa[11..], &[-3; 5]);
}

#[test]
fn sixteen_bit_symbols() {
    let t: Vec<u16> = vec![500, 7, 65535, 7, 500];
    let mut sa = vec![0i32; t.len()];
    let mut freq = vec![0i32; sais::sais16::FREQ_TABLE_SIZE];
    sais::sais16::sais(&t, &mut sa, Some(&mut freq)).expect("sais failed");
    assert_eq!(sa, vec![3, 1, 4, 0, 2]);
    assert_eq!(freq[7], 2);
    assert_eq!(freq[500], 2);
    assert_eq!(freq[65535], 1);
    assert_eq!(freq.iter().sum::<i32>(), 5);

    let mut u = vec![0u16; t.len()];
    let i = sais::sais16::bwt(&t, &mut u, &mut sa, None).expect("bwt failed");
    assert_eq!(u, vec![500, 65535, 500, 7, 7]);
    assert_eq!(i, 4);

    let mut s = vec![0u16; t.len()];
    let mut work = vec![0i32; t.len() + 1];
    sais::sais16::unbwt(&u, &mut s, &mut work, Some(&freq), i).expect("unbwt failed");
    assert_eq!(s, t);

    let mut permuted = vec![0i32; t.len()];
    let mut ordered = vec![0i32; t.len()];
    sais::sais16::plcp(&t, &sa, &mut permuted).expect("plcp failed");
    sais::sais16::lcp(&permuted, &sa, &mut ordered).expect("lcp failed");
    assert_eq!(ordered, vec![0, 1, 0, 1, 0]);
}

#[test]
fn wide_indices() {
    let t: &[u8] = b"banana";
    let mut sa = vec![0i64; t.len() + 2];
    sais::sais64::sais(t, &mut sa, None).expect("sais failed");
    assert_eq!(sa, vec![5, 3, 1, 0, 4, 2, 0, 0]);

    let mut u = vec![0u8; t.len()];
    let i = sais::sais64::bwt(t, &mut u, &mut sa, None).expect("bwt failed");
    assert_eq!(u, b"annbaa");
    assert_eq!(i, 4);

    let mut s = vec![0u8; t.len()];
    sais::sais64::unbwt(&u, &mut s, &mut sa, None, i).expect("unbwt failed");
    assert_eq!(s, b"banana");

    let mut i = vec![0i64; 3];
    sais::sais64::bwt_aux_inplace(&mut s, &mut sa, None, &mut i).expect("bwt failed");
    assert_eq!(s, b"annbaa");
    // rate 2: the rows of the suffixes at 0, 2 and 4
    assert_eq!(i, vec![4, 6, 5]);
    sais::sais64::unbwt_aux_inplace(&mut s, &mut sa, None, &i).expect("unbwt failed");
    assert_eq!(s, b"banana");

    let mut permuted = vec![0i64; t.len()];
    let mut ordered = vec![0i64; t.len()];
    let mut sa = vec![0i64; t.len()];
    sais::sais64::sais(t, &mut sa, None).expect("sais failed");
    sais::sais64::plcp(t, &sa, &mut permuted).expect("plcp failed");
    sais::sais64::lcp(&permuted, &sa, &mut ordered).expect("lcp failed");
    assert_eq!(ordered, vec![0, 1, 3, 0, 0, 2]);
}

#[test]
fn integer_alphabet() {
    let mut t: Vec<i32> = b"banana".iter().map(|&c| c as i32 - 97).collect();
    let mut sa = vec![0i32; t.len()];
    sais::sais32::sais_int(&mut t, &mut sa, 14).expect("sais failed");
    assert_eq!(sa, vec![5, 3, 1, 0, 4, 2]);
    assert_eq!(sais::sais32::sais_int(&mut t, &mut sa, 13), Err(Error::IllegalArguments));
    let mut large = vec![1_000_000i32, 3, 1_000_000, 2];
    let mut sa = vec![0i32; 4];
    sais::sais32::sais_int(&mut large, &mut sa, 1_000_001).expect("sais failed");
    assert_eq!(sa, vec![3, 1, 2, 0]);
}

#[test]
fn context_serves_many_calls() {
    let long = vec![b'z'; 5000];
    let short: &[u8] = b"mississippi";
    let mut ctx = sais::sais32::SaisContext::new().unwrap();
    let mut back = sais::sais32::UnbwtContext::new_parallel(2).unwrap();
    for round in 0..3 {
        let mut sa = vec![0i32; long.len()];
        ctx.sais(&long, &mut sa, None).expect("sais failed");
        assert_eq!(sa[0], 4999);
        assert_eq!(sa[4999], 0);

        let mut sa = vec![0i32; short.len()];
        ctx.sais(short, &mut sa, None).expect("sais failed");
        assert_eq!(sa, vec![10, 7, 4, 1, 0, 9, 8, 6, 3, 5, 2]);

        let mut u = vec![0u8; short.len()];
        let i = ctx.bwt(short, &mut u, &mut sa, None).expect("bwt failed");
        assert_eq!(u, b"ipssmpissii");
        assert_eq!(i, 5);

        let mut s = vec![0u8; long.len()];
        let mut work = vec![round; long.len() + 1];
        back.unbwt(&long, &mut s, &mut work, None, 5000).expect("unbwt failed");
        assert_eq!(s, long);

        let mut s = vec![0u8; short.len()];
        back.unbwt(&u, &mut s, &mut work, None, i).expect("unbwt failed");
        assert_eq!(s, short);
        assert_eq!(work, vec![round; long.len() + 1]);
    }
}

#[test]
fn samples_at_several_rates() {
    let t: Vec<u8> = (0..1000u32).map(|i| (i * i % 7) as u8 + b'a').collect();
    let mut plain = vec![0u8; t.len()];
    let mut a = vec![0i32; t.len()];
    let primary = bwt(&t, &mut plain, &mut a, None).expect("bwt failed");
    for rate in [2usize, 8, 64, 512, 1024] {
        let length = aux_length_exact(t.len(), rate).unwrap();
        assert_eq!(length, (t.len() + rate - 1) / rate);
        assert_eq!(aux_rate_exact(t.len(), length), Some(rate));
        let mut u = vec![0u8; t.len()];
        let mut i = vec![0i32; length];
        bwt_aux(&t, &mut u, &mut a, None, &mut i).expect("bwt failed");
        assert_eq!(u, plain);
        assert_eq!(i[0], primary);
        for k in 0..length {
            // the sample names the row of the suffix at `k * rate`
            assert_eq!(a[i[k] as usize - 1] as usize, k * rate);
        }
        let mut s = vec![0u8; t.len()];
        let mut work = vec![0i32; t.len() + 1];
        unbwt_aux(&u, &mut s, &mut work, None, &i).expect("unbwt failed");
        assert_eq!(s, t);
    }
    // a rate that leaves one sample only is recovered as the smallest such rate
    assert_eq!(aux_length_exact(t.len(), 4096), Some(1));
    assert_eq!(aux_rate_exact(t.len(), 1), Some(1024));
}
