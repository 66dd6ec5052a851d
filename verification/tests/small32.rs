use sais::aux_index::aux_rate_exact;
use sais::sais32::{
    bwt, bwt_aux, lcp, parallel, plcp, sais, unbwt, unbwt_aux, Error, SaisContext, UnbwtContext,
    FREQ_TABLE_SIZE,
};

fn texts() -> Vec<Vec<u8>> {
    let text_samples: Vec<&[u8]> = vec![
        b"",
        b"_",
        b"\x00\xff",
        b"mississippi",
        b"the quick brown fox jumps over the lazy dog",
        b"ABCDEFGHIJKLMNOPQRSTUVWXYZ",
    ];
    let samples: Vec<Vec<u8>> = text_samples
        .into_iter()
        .map(|sample| sample.iter().map(|&ch| ch as u8).collect())
        .collect();
    samples
}

fn allocate_suffix_arrays(text_size: usize) -> Vec<Vec<i32>> {
    vec![vec![0; text_size], vec![0; text_size.saturating_mul(2)]]
}

fn check_suffix_array(t: &[u8], sa: &[i32]) {
    if t.len() > 0 {
        assert!(sa.len() >= t.len());
        for i in 0..t.len() - 1 {
            assert!(t[sa[i] as usize..] < t[sa[i + 1] as usize..]);
        }
    }
}

fn check_lcp_array(t: &[u8], sa: &[i32], lcp: &[i32]) {
    if t.len() > 0 {
        assert!(sa.len() >= t.len());
        assert!(lcp.len() >= t.len());
        assert_eq!(lcp[0], 0);
        for i in 1..t.len() {
            let common = Iterator::zip(t[sa[i - 1] as usize..].iter(), t[sa[i] as usize..].iter())
                .take_while(|(&x, &y)| x == y)
                .count();
            assert_eq!(lcp[i], common as i32);
        }
    }
}

fn check_frequency_table(t: &[u8], freq: &[i32], freq_size: usize) {
    let mut rust_freq = vec![0 as i32; freq_size];
    for &ch in t {
        rust_freq[ch as usize] += 1;
    }
    assert_eq!(freq, rust_freq.as_slice());
}

#[test]
fn sais32_test_sais() {
    for t in texts() {
        let t = t.as_slice();
        for mut sa in allocate_suffix_arrays(t.len()) {
            // sais
            sais(t, sa.as_mut_slice(), None).expect("sais failed");
            check_suffix_array(t, sa.as_slice());

            // sais, w/ output symbol frequency table
            let mut freq = vec![0 as i32; FREQ_TABLE_SIZE];
            sais(t, sa.as_mut_slice(), Some(freq.as_mut_slice())).expect("sais failed");
            check_frequency_table(t, freq.as_slice(), FREQ_TABLE_SIZE);
            check_suffix_array(t, sa.as_slice());

            // sais, w/ context
            let mut ctx = SaisContext::new().unwrap();
            ctx.sais(t, sa.as_mut_slice(), None).expect("sais failed");
            check_suffix_array(t, sa.as_slice());

            // sais, w/ context, w/ output symbol frequency table
            let mut freq = vec![0 as i32; FREQ_TABLE_SIZE];
            ctx.sais(t, sa.as_mut_slice(), Some(freq.as_mut_slice())).expect("sais failed");
            check_frequency_table(t, freq.as_slice(), FREQ_TABLE_SIZE);
            check_suffix_array(t, sa.as_slice());
        }
    }
}

#[test]
fn sais32_test_sais_openmp() {
    for t in texts() {
        let t = t.as_slice();
        for mut sa in allocate_suffix_arrays(t.len()) {
            parallel::sais(t, sa.as_mut_slice(), None, 0).expect("sais failed");
            check_suffix_array(t, sa.as_slice());

            // w/ output symbol frequency table
            let mut freq = vec![0 as i32; FREQ_TABLE_SIZE];
            parallel::sais(t, sa.as_mut_slice(), Some(freq.as_mut_slice()), 0).expect("sais failed");
            check_frequency_table(t, freq.as_slice(), FREQ_TABLE_SIZE);
            check_suffix_array(t, sa.as_slice());
        }
    }
}

#[test]
fn sais32_test_bwt_unbwt() {
    for t in texts() {
        let t = t.as_slice();
        for mut a in allocate_suffix_arrays(t.len()) {
            let mut u = vec![0 as u8; t.len()];
            let mut s = vec![0 as u8; t.len()];

            // bwt + unbwt
            let i = bwt(t, u.as_mut_slice(), a.as_mut_slice(), None).expect("bwt failed");
            if a.len() > t.len() {
                unbwt(u.as_slice(), s.as_mut_slice(), a.as_mut_slice(), None, i).expect("unbwt failed");
                assert_eq!(t, s.as_slice());
            } else {
                // the work space of the inverse needs one entry more than the text has symbols
                assert_eq!(unbwt(u.as_slice(), s.as_mut_slice(), a.as_mut_slice(), None, i), Err(Error::IllegalArguments));
            }

            // bwt + unbwt, w/ output symbol frequency table
            let mut freq = vec![0 as i32; FREQ_TABLE_SIZE];
            bwt(t, u.as_mut_slice(), a.as_mut_slice(), Some(freq.as_mut_slice())).expect("bwt failed");
            check_frequency_table(t, freq.as_slice(), FREQ_TABLE_SIZE);
            if a.len() > t.len() {
                unbwt(u.as_slice(), s.as_mut_slice(), a.as_mut_slice(), Some(freq.as_slice()), i).expect("unbwt failed");
                assert_eq!(t, s.as_slice());
            } else {
                // the work space of the inverse needs one entry more than the text has symbols
                assert_eq!(unbwt(u.as_slice(), s.as_mut_slice(), a.as_mut_slice(), Some(freq.as_slice()), i), Err(Error::IllegalArguments));
            }

            // bwt + unbwt, w/ contexts
            let mut bwt_ctx = SaisContext::new().unwrap();
            let mut unbwt_ctx = UnbwtContext::new().unwrap();
            let i = bwt_ctx
                .bwt(t, u.as_mut_slice(), a.as_mut_slice(), None)
                .expect("bwt failed");
            if a.len() > t.len() {
                unbwt_ctx.unbwt(u.as_slice(), s.as_mut_slice(), a.as_mut_slice(), None, i).expect("unbwt failed");
                assert_eq!(t, s.as_slice());
            } else {
                // the work space of the inverse needs one entry more than the text has symbols
                assert_eq!(unbwt_ctx.unbwt(u.as_slice(), s.as_mut_slice(), a.as_mut_slice(), None, i), Err(Error::IllegalArguments));
            }

            // bwt + unbwt, w/ contexts, w/ output symbol frequency table
            let mut freq = vec![0 as i32; FREQ_TABLE_SIZE];
            bwt_ctx
                .bwt(t, u.as_mut_slice(), a.as_mut_slice(), Some(freq.as_mut_slice()))
                .expect("bwt failed");
            check_frequency_table(t, freq.as_slice(), FREQ_TABLE_SIZE);
            if a.len() > t.len() {
                unbwt_ctx.unbwt(u.as_slice(), s.as_mut_slice(), a.as_mut_slice(), Some(freq.as_slice()), i).expect("unbwt failed");
                assert_eq!(t, s.as_slice());
            } else {
                // the work space of the inverse needs one entry more than the text has symbols
                assert_eq!(unbwt_ctx.unbwt(u.as_slice(), s.as_mut_slice(), a.as_mut_slice(), Some(freq.as_slice()), i), Err(Error::IllegalArguments));
            }
        }
    }
}

#[test]
fn sais32_test_bwt_unbwt_openmp() {
    for t in texts() {
        let t = t.as_slice();
        for mut a in allocate_suffix_arrays(t.len()) {
            let mut u = vec![0 as u8; t.len()];
            let mut s = vec![0 as u8; t.len()];

            // bwt + unbwt
            let i = parallel::bwt(t, u.as_mut_slice(), a.as_mut_slice(), None, 0).expect("bwt failed");
            if a.len() > t.len() {
                parallel::unbwt(u.as_slice(), s.as_mut_slice(), a.as_mut_slice(), None, i, 0).expect("unbwt failed");
                assert_eq!(t, s.as_slice());
            } else {
                // the work space of the inverse needs one entry more than the text has symbols
                assert_eq!(parallel::unbwt(u.as_slice(), s.as_mut_slice(), a.as_mut_slice(), None, i, 0), Err(Error::IllegalArguments));
            }

            // bwt + unbwt, w/ output symbol frequency table
            let mut freq = vec![0 as i32; FREQ_TABLE_SIZE];
            let i = parallel::bwt(t, u.as_mut_slice(), a.as_mut_slice(), Some(freq.as_mut_slice()), 0).expect("bwt failed");
            check_frequency_table(t, freq.as_slice(), FREQ_TABLE_SIZE);
            if a.len() > t.len() {
                parallel::unbwt(u.as_slice(), s.as_mut_slice(), a.as_mut_slice(), Some(freq.as_slice()), i, 0).expect("unbwt failed");
                assert_eq!(t, s.as_slice());
            } else {
                // the work space of the inverse needs one entry more than the text has symbols
                assert_eq!(parallel::unbwt(u.as_slice(), s.as_mut_slice(), a.as_mut_slice(), Some(freq.as_slice()), i, 0), Err(Error::IllegalArguments));
            }
        }
    }
}

#[test]
fn sais32_test_bwt_unbwt_aux() {
    for t in texts() {
        let t = t.as_slice();
        for mut a in allocate_suffix_arrays(t.len()) {
            let mut u = vec![0 as u8; t.len()];
            let mut s = vec![0 as u8; t.len()];
            let mut i = vec![0 as i32; Ord::max(t.len() / 4, 1)];
            let mut bwt_ctx = SaisContext::new().unwrap();
            let mut unbwt_ctx = UnbwtContext::new().unwrap();
            if aux_rate_exact(t.len(), i.len()).is_none() {
                // the length of the auxiliary array stands for no sampling rate
                assert_eq!(
                    bwt_aux(t, u.as_mut_slice(), a.as_mut_slice(), None, i.as_mut_slice()),
                    Err(Error::IllegalArguments)
                );
                assert_eq!(
                    bwt_ctx.bwt_aux(t, u.as_mut_slice(), a.as_mut_slice(), None, i.as_mut_slice()),
                    Err(Error::IllegalArguments)
                );
                assert_eq!(
                    unbwt_ctx.unbwt_aux(u.as_slice(), s.as_mut_slice(), a.as_mut_slice(), None, i.as_slice()),
                    Err(Error::IllegalArguments)
                );
                continue;
            }

            // bwt_aux + unbwt_aux
            bwt_aux(t, u.as_mut_slice(), a.as_mut_slice(), None, i.as_mut_slice()).expect("bwt failed");
            if a.len() > t.len() {
                unbwt_aux(u.as_slice(), s.as_mut_slice(), a.as_mut_slice(), None, i.as_slice()).expect("unbwt failed");
                assert_eq!(t, s.as_slice());
            } else {
                // the work space of the inverse needs one entry more than the text has symbols
                assert_eq!(unbwt_aux(u.as_slice(), s.as_mut_slice(), a.as_mut_slice(), None, i.as_slice()), Err(Error::IllegalArguments));
            }

            // bwt_aux + unbwt_aux, w/ output symbol frequency table
            let mut freq = vec![0 as i32; FREQ_TABLE_SIZE];
            bwt_aux(t, u.as_mut_slice(), a.as_mut_slice(), Some(freq.as_mut_slice()), i.as_mut_slice())
                .expect("bwt failed");
            check_frequency_table(t, freq.as_slice(), FREQ_TABLE_SIZE);
            if a.len() > t.len() {
                unbwt_aux(u.as_slice(), s.as_mut_slice(), a.as_mut_slice(), Some(freq.as_slice()), i.as_slice()).expect("unbwt failed");
                assert_eq!(t, s.as_slice());
            } else {
                // the work space of the inverse needs one entry more than the text has symbols
                assert_eq!(unbwt_aux(u.as_slice(), s.as_mut_slice(), a.as_mut_slice(), Some(freq.as_slice()), i.as_slice()), Err(Error::IllegalArguments));
            }

            // bwt_aux + unbwt_aux, w/ contexts
            bwt_ctx
                .bwt_aux(t, u.as_mut_slice(), a.as_mut_slice(), None, i.as_mut_slice())
                .expect("bwt failed");
            if a.len() > t.len() {
                unbwt_ctx.unbwt_aux(u.as_slice(), s.as_mut_slice(), a.as_mut_slice(), None, i.as_slice()).expect("unbwt failed");
                assert_eq!(t, s.as_slice());
            } else {
                // the work space of the inverse needs one entry more than the text has symbols
                assert_eq!(unbwt_ctx.unbwt_aux(u.as_slice(), s.as_mut_slice(), a.as_mut_slice(), None, i.as_slice()), Err(Error::IllegalArguments));
            }

            // bwt_aux + unbwt_aux, w/ contexts, w/ output symbol frequency table
            let mut freq = vec![0 as i32; FREQ_TABLE_SIZE];
            bwt_ctx
                .bwt_aux(t, u.as_mut_slice(), a.as_mut_slice(), Some(freq.as_mut_slice()), i.as_mut_slice())
                .expect("bwt failed");
            check_frequency_table(t, freq.as_slice(), FREQ_TABLE_SIZE);
            if a.len() > t.len() {
                unbwt_ctx.unbwt_aux(u.as_slice(), s.as_mut_slice(), a.as_mut_slice(), Some(freq.as_slice()), i.as_slice()).expect("unbwt failed");
                assert_eq!(t, s.as_slice());
            } else {
                // the work space of the inverse needs one entry more than the text has symbols
                assert_eq!(unbwt_ctx.unbwt_aux(u.as_slice(), s.as_mut_slice(), a.as_mut_slice(), Some(freq.as_slice()), i.as_slice()), Err(Error::IllegalArguments));
            }
        }
    }
}

#[test]
fn sais32_test_bwt_unbwt_aux_openmp() {
    for t in texts() {
        let t = t.as_slice();
        for mut a in allocate_suffix_arrays(t.len()) {
            let mut u = vec![0 as u8; t.len()];
            let mut s = vec![0 as u8; t.len()];

            let mut i = vec![0 as i32; Ord::max(t.len() / 4, 1)];
            if aux_rate_exact(t.len(), i.len()).is_none() {
                // the length of the auxiliary array stands for no sampling rate
                assert_eq!(
                    parallel::bwt_aux(t, u.as_mut_slice(), a.as_mut_slice(), None, i.as_mut_slice(), 0),
                    Err(Error::IllegalArguments)
                );
                assert_eq!(
                    parallel::unbwt_aux(u.as_slice(), s.as_mut_slice(), a.as_mut_slice(), None, i.as_slice(), 0),
                    Err(Error::IllegalArguments)
                );
                continue;
            }
            // bwt_aux + unbwt_aux
            parallel::bwt_aux(t, u.as_mut_slice(), a.as_mut_slice(), None, i.as_mut_slice(), 0).expect("bwt failed");
            if a.len() > t.len() {
                parallel::unbwt_aux(u.as_slice(), s.as_mut_slice(), a.as_mut_slice(), None, i.as_slice(), 0).expect("unbwt failed");
                assert_eq!(t, s.as_slice());
            } else {
                // the work space of the inverse needs one entry more than the text has symbols
                assert_eq!(parallel::unbwt_aux(u.as_slice(), s.as_mut_slice(), a.as_mut_slice(), None, i.as_slice(), 0), Err(Error::IllegalArguments));
            }

            // bwt_aux + unbwt_aux, w/ output symbol frequency table
            let mut freq = vec![0 as i32; FREQ_TABLE_SIZE];
            parallel::bwt_aux(t, u.as_mut_slice(), a.as_mut_slice(), Some(freq.as_mut_slice()), i.as_mut_slice(), 0).expect("bwt failed");
            check_frequency_table(t, freq.as_slice(), FREQ_TABLE_SIZE);
            if a.len() > t.len() {
                parallel::unbwt_aux(u.as_slice(), s.as_mut_slice(), a.as_mut_slice(), Some(freq.as_slice()), i.as_slice(), 0).expect("unbwt failed");
                assert_eq!(t, s.as_slice());
            } else {
                // the work space of the inverse needs one entry more than the text has symbols
                assert_eq!(parallel::unbwt_aux(u.as_slice(), s.as_mut_slice(), a.as_mut_slice(), Some(freq.as_slice()), i.as_slice(), 0), Err(Error::IllegalArguments));
            }
        }
    }
}

#[test]
fn sais32_test_plcp_lcp() {
    for t in texts() {
        let t = t.as_slice();
        let mut sa = vec![0 as i32; t.len()];
        let mut plcp_array = vec![0 as i32; t.len()];
        let mut lcp_array = vec![0 as i32; t.len()];

        sais(t, sa.as_mut_slice(), None).expect("sais failed");

        // plcp + lcp
        plcp(t, sa.as_slice(), plcp_array.as_mut_slice()).expect("plcp failed");
        lcp(plcp_array.as_slice(), sa.as_slice(), lcp_array.as_mut_slice()).expect("lcp failed");
        check_lcp_array(t, sa.as_slice(), lcp_array.as_slice());
    }
}

#[test]
fn sais32_test_plcp_lcp_openmp() {
    for t in texts() {
        let t = t.as_slice();
        let mut sa = vec![0 as i32; t.len()];
        let mut plcp_array = vec![0 as i32; t.len()];
        let mut lcp_array = vec![0 as i32; t.len()];

        parallel::sais(t, sa.as_mut_slice(), None, 0).expect("sais failed");

        // plcp + lcp
        parallel::plcp(t, sa.as_slice(), plcp_array.as_mut_slice(), 0).expect("plcp failed");
        parallel::lcp(plcp_array.as_slice(), sa.as_slice(), lcp_array.as_mut_slice(), 0).expect("lcp failed");
        check_lcp_array(t, sa.as_slice(), lcp_array.as_slice());
    }
}
