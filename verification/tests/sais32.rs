use sais::aux_index::{aux_length_exact, AUX_RATE_MIN};
use sais::sais32::{
    bwt, bwt_aux, bwt_aux_inplace, bwt_inplace, lcp, parallel, plcp, sais, sais_int, unbwt,
    unbwt_aux, unbwt_aux_inplace, unbwt_inplace, SaisContext, UnbwtContext, FREQ_TABLE_SIZE,
};

struct Random(u64);

impl Random {
    fn next(&mut self) -> u64 {
        self.0 = self.0.wrapping_add(0x9e3779b97f4a7c15);
        let mut z = self.0;
        z = (z ^ (z >> 30)).wrapping_mul(0xbf58476d1ce4e5b9);
        z = (z ^ (z >> 27)).wrapping_mul(0x94d049bb133111eb);
        z ^ (z >> 31)
    }

    fn in_range(&mut self, low: u64, high: u64) -> u64 {
        low + self.next() % (high - low + 1)
    }
}

fn random_text(rng: &mut Random, size_low: usize, size_high: usize, low: u8, high: u8) -> Vec<u8> {
    let size = rng.in_range(size_low as u64, size_high as u64) as usize;
    let mut sample = Vec::with_capacity(size);
    for _ in 0..size {
        sample.push(rng.in_range(low as u64, high as u64) as u8);
    }
    sample
}

fn texts() -> Vec<Vec<u8>> {
    let text_samples: Vec<&[u8]> = vec![
        b"",
        b"_",
        b"\x00\xff",
        b"mississippi",
        b"the quick brown fox jumps over the lazy dog",
        b"ABCDEFGHIJKLMNOPQRSTUVWXYZ",
        b"Lorem ipsum dolor sit amet, consectetur adipiscing elit, sed do eiusmod tempor incididunt ut labore et dolore magna aliqua. \
        Egestas egestas fringilla phasellus faucibus scelerisque eleifend donec pretium vulputate. Feugiat in fermentum posuere urna. \
        Amet nisl purus in mollis nunc. Tellus orci ac auctor augue mauris augue. Dolor morbi non arcu risus quis varius quam quisque id. \
        Et malesuada fames ac turpis egestas sed tempus. Eget mi proin sed libero enim sed faucibus. Turpis massa sed elementum tempus. \
        Congue eu consequat ac felis donec.",
    ];
    let mut samples: Vec<Vec<u8>> = text_samples
        .into_iter()
        .map(|sample| sample.iter().map(|&ch| ch as u8).collect())
        .collect();
    let mut rng = Random(0x5a15);
    samples.push(random_text(&mut rng, 100, 200, 0, 4));
    samples.push(random_text(&mut rng, 100, 200, 0, 16));
    samples.push(random_text(&mut rng, 100, 200, 0, 64));
    samples.push(random_text(&mut rng, 100, 200, 128, 255));
    samples.push(random_text(&mut rng, 100000, 200000, 0, 4));
    samples.push(random_text(&mut rng, 100000, 200000, 0, 16));
    samples.push(random_text(&mut rng, 100000, 200000, 0, 64));
    samples.push(random_text(&mut rng, 100000, 200000, 128, 255));
    samples
}

fn allocate_suffix_arrays(text_size: usize) -> Vec<Vec<i32>> {
    vec![
        // allocates text_len
        vec![0; text_size],
        // allocates text_len + 256
        vec![0; text_size.saturating_add(256)],
        // allocates text_len * 1.125
        vec![0; text_size.saturating_add((text_size as f64 * 0.125) as usize)],
    ]
}

fn allocate_aux_arrays(text_size: usize) -> Vec<Vec<i32>> {
    let max_rate = Ord::min(text_size.checked_next_power_of_two().unwrap(), AUX_RATE_MIN);
    let mut rates: Vec<usize> = (1..)
        .into_iter()
        .map(|i| 1 << i)
        .take_while(|&r| r <= max_rate)
        .collect();
    if rates.len() > 3 {
        rates = vec![rates[0], rates[rates.len() / 2], rates[rates.len() - 1]];
    }
    rates
        .into_iter()
        .map(|r| vec![0; aux_length_exact(text_size, r).unwrap()])
        .collect()
}

fn check_suffix_array(t: &[u8], sa: &[i32]) {
    if t.len() > 0 {
        assert!(sa.len() >= t.len());
        for i in 0..t.len() - 1 {
            assert!(t[sa[i] as usize..] < t[sa[i + 1] as usize..]);
        }
    }
}

fn check_lcp_array(t: &[u8], sa: &[i32], lcp: &[i32]) {
    if t.len() > 0 {
        assert!(sa.len() >= t.len());
        assert!(lcp.len() >= t.len());
        assert_eq!(lcp[0], 0);
        for i in 1..t.len() {
            let common = Iterator::zip(t[sa[i - 1] as usize..].iter(), t[sa[i] as usize..].iter())
                .take_while(|(&x, &y)| x == y)
                .count();
            assert_eq!(lcp[i], common as i32);
        }
    }
}

fn check_frequency_table(t: &[u8], freq: &[i32], freq_size: usize) {
    let mut rust_freq = vec![0 as i32; freq_size];
    for &ch in t {
        rust_freq[ch as usize] += 1;
    }
    assert_eq!(freq, rust_freq.as_slice());
}

#[test]
fn sais32_test_sais_basic() {
    for t in texts() {
        let t = t.as_slice();
        for mut sa in allocate_suffix_arrays(t.len()) {
            sais(t, sa.as_mut_slice(), None).expect("sais failed");
            check_suffix_array(t, sa.as_slice());

            // w/ output symbol frequency table
            let mut freq = vec![0 as i32; FREQ_TABLE_SIZE];
            sais(t, sa.as_mut_slice(), Some(freq.as_mut_slice())).expect("sais failed");
            check_frequency_table(t, freq.as_slice(), FREQ_TABLE_SIZE);
            check_suffix_array(t, sa.as_slice());
        }
    }
}

#[test]
fn sais32_test_sais_context() {
    for t in texts() {
        let t = t.as_slice();
        for mut sa in allocate_suffix_arrays(t.len()) {
            // sais, w/ context
            let mut ctx = SaisContext::new().unwrap();
            ctx.sais(t, sa.as_mut_slice(), None).expect("sais failed");
            check_suffix_array(t, sa.as_slice());

            // w/ output symbol frequency table
            let mut freq = vec![0 as i32; FREQ_TABLE_SIZE];
            ctx.sais(t, sa.as_mut_slice(), Some(freq.as_mut_slice())).expect("sais failed");
            check_frequency_table(t, freq.as_slice(), FREQ_TABLE_SIZE);
            check_suffix_array(t, sa.as_slice());
        }
    }
}

#[test]
fn sais32_test_sais_parallel() {
    for t in texts() {
        let t = t.as_slice();
        for mut sa in allocate_suffix_arrays(t.len()) {
            parallel::sais(t, sa.as_mut_slice(), None, 0).expect("sais failed");
            check_suffix_array(t, sa.as_slice());

            // w/ output symbol frequency table
            let mut freq = vec![0 as i32; FREQ_TABLE_SIZE];
            parallel::sais(t, sa.as_mut_slice(), Some(freq.as_mut_slice()), 0).expect("sais failed");
            check_frequency_table(t, freq.as_slice(), FREQ_TABLE_SIZE);
            check_suffix_array(t, sa.as_slice());
        }
    }
}

#[test]
fn test_sais_int_basic() {
    let mut texts: Vec<Vec<i32>> = texts()
        .iter()
        .map(|item| Vec::from_iter(item.iter().copied().map(Into::into)))
        .collect();
    for t in texts.iter_mut() {
        for mut sa in allocate_suffix_arrays(t.len()) {
            // sais
            let before = t.clone();
            sais_int(t, sa.as_mut_slice(), 256).expect("sais failed");
            assert_eq!(&before, t);
            if t.len() > 0 {
                for i in 0..t.len() - 1 {
                    assert!(t[sa[i] as usize..] < t[sa[i + 1] as usize..]);
                }
            }
        }
    }
}

#[test]
fn test_sais_int_parallel() {
    let mut texts: Vec<Vec<i32>> = texts()
        .iter()
        .map(|item| Vec::from_iter(item.iter().copied().map(Into::into)))
        .collect();
    for t in texts.iter_mut() {
        for mut sa in allocate_suffix_arrays(t.len()) {
            // sais
            let before = t.clone();
            parallel::sais_int(t, sa.as_mut_slice(), 256, 0).expect("sais failed");
            assert_eq!(&before, t);
            if t.len() > 0 {
                for i in 0..t.len() - 1 {
                    assert!(t[sa[i] as usize..] < t[sa[i + 1] as usize..]);
                }
            }
        }
    }
}

#[test]
fn sais32_test_bwt_unbwt_basic() {
    for t in texts() {
        let t = t.as_slice();
        let mut u = vec![0 as u8; t.len()];
        let mut s = vec![0 as u8; t.len()];
        let mut a0 = vec![0 as i32; t.len()];
        let mut a1 = vec![0 as i32; t.len().checked_add(1).unwrap()];

        // bwt + unbwt
        let i = bwt(t, u.as_mut_slice(), a0.as_mut_slice(), None).expect("bwt failed");
        unbwt(u.as_slice(), s.as_mut_slice(), a1.as_mut_slice(), None, i).expect("unbwt failed");
        assert_eq!(t, s.as_slice());

        // bwt_inplace + unbwt_inplace
        s.copy_from_slice(t);
        let i = bwt_inplace(s.as_mut_slice(), a0.as_mut_slice(), None).expect("bwt failed");
        assert_eq!(u, s);
        unbwt_inplace(s.as_mut_slice(), a1.as_mut_slice(), None, i).expect("unbwt failed");
        assert_eq!(t, s.as_slice());

        // bwt + unbwt, w/ output symbol frequency table
        let mut freq = vec![0 as i32; FREQ_TABLE_SIZE];
        let i = bwt(t, u.as_mut_slice(), a0.as_mut_slice(), Some(freq.as_mut_slice())).expect("bwt failed");
        check_frequency_table(t, freq.as_slice(), FREQ_TABLE_SIZE);
        unbwt(u.as_slice(), s.as_mut_slice(), a1.as_mut_slice(), Some(freq.as_slice()), i).expect("unbwt failed");
        assert_eq!(t, s.as_slice());

        // bwt_inplace + unbwt_inplace, w/ output symbol frequency table
        s.copy_from_slice(t);
        let mut freq = vec![0 as i32; FREQ_TABLE_SIZE];
        let i = bwt_inplace(s.as_mut_slice(), a0.as_mut_slice(), Some(freq.as_mut_slice())).expect("bwt failed");
        check_frequency_table(t, freq.as_slice(), FREQ_TABLE_SIZE);
        unbwt_inplace(s.as_mut_slice(), a1.as_mut_slice(), Some(freq.as_slice()), i).expect("unbwt failed");
        assert_eq!(t, s.as_slice());
    }
}

#[test]
fn sais32_test_bwt_unbwt_context() {
    for t in texts() {
        let t = t.as_slice();
        let mut u = vec![0 as u8; t.len()];
        let mut s = vec![0 as u8; t.len()];
        let mut bwt_ctx = SaisContext::new().unwrap();
        let mut unbwt_ctx = UnbwtContext::new().unwrap();
        let mut a0 = vec![0 as i32; t.len()];
        let mut a1 = vec![0 as i32; t.len().checked_add(1).unwrap()];

        // bwt + unbwt
        let i = bwt_ctx.bwt(t, u.as_mut_slice(), a0.as_mut_slice(), None).expect("bwt failed");
        unbwt_ctx.unbwt(u.as_slice(), s.as_mut_slice(), a1.as_mut_slice(), None, i).expect("unbwt failed");
        assert_eq!(t, s.as_slice());

        // bwt_inplace + unbwt_inplace
        s.copy_from_slice(t);
        let i = bwt_ctx.bwt_inplace(s.as_mut_slice(), a0.as_mut_slice(), None).expect("bwt failed");
        assert_eq!(u, s);
        unbwt_ctx.unbwt_inplace(s.as_mut_slice(), a1.as_mut_slice(), None, i).expect("unbwt failed");
        assert_eq!(t, s.as_slice());

        // bwt + unbwt, w/ output symbol frequency table
        let mut freq = vec![0 as i32; FREQ_TABLE_SIZE];
        let i = bwt_ctx.bwt(t, u.as_mut_slice(), a0.as_mut_slice(), Some(freq.as_mut_slice())).expect("bwt failed");
        check_frequency_table(t, freq.as_slice(), FREQ_TABLE_SIZE);
        unbwt_ctx.unbwt(u.as_slice(), s.as_mut_slice(), a1.as_mut_slice(), Some(freq.as_slice()), i).expect("unbwt failed");
        assert_eq!(t, s.as_slice());

        // bwt_inplace + unbwt_inplace, w/ output symbol frequency table
        s.copy_from_slice(t);
        let mut freq = vec![0 as i32; FREQ_TABLE_SIZE];
        let i = bwt_ctx.bwt_inplace(s.as_mut_slice(), a0.as_mut_slice(), Some(freq.as_mut_slice())).expect("bwt failed");
        check_frequency_table(t, freq.as_slice(), FREQ_TABLE_SIZE);
        unbwt_ctx.unbwt_inplace(s.as_mut_slice(), a1.as_mut_slice(), Some(freq.as_slice()), i).expect("unbwt failed");
        assert_eq!(t, s.as_slice());
    }
}

#[test]
fn sais32_test_bwt_unbwt_parallel() {
    for t in texts() {
        let t = t.as_slice();
        let mut u = vec![0 as u8; t.len()];
        let mut s = vec![0 as u8; t.len()];
        let mut a0 = vec![0 as i32; t.len()];
        let mut a1 = vec![0 as i32; t.len().checked_add(1).unwrap()];

        // bwt + unbwt
        let i = parallel::bwt(t, u.as_mut_slice(), a0.as_mut_slice(), None, 0).expect("bwt failed");
        parallel::unbwt(u.as_slice(), s.as_mut_slice(), a1.as_mut_slice(), None, i, 0).expect("unbwt failed");
        assert_eq!(t, s.as_slice());

        // bwt_inplace + unbwt_inplace
        s.copy_from_slice(t);
        let i = parallel::bwt_inplace(s.as_mut_slice(), a0.as_mut_slice(), None, 0).expect("bwt failed");
        assert_eq!(u, s);
        parallel::unbwt_inplace(s.as_mut_slice(), a1.as_mut_slice(), None, i, 0).expect("unbwt failed");
        assert_eq!(t, s.as_slice());

        // bwt + unbwt, w/ output symbol frequency table
        let mut freq = vec![0 as i32; FREQ_TABLE_SIZE];
        let i = parallel::bwt(t, u.as_mut_slice(), a0.as_mut_slice(), Some(freq.as_mut_slice()), 0).expect("bwt failed");
        check_frequency_table(t, freq.as_slice(), FREQ_TABLE_SIZE);
        parallel::unbwt(u.as_slice(), s.as_mut_slice(), a1.as_mut_slice(), Some(freq.as_slice()), i, 0).expect("unbwt failed");
        assert_eq!(t, s.as_slice());

        // bwt_inplace + unbwt_inplace, w/ output symbol frequency table
        s.copy_from_slice(t);
        let mut freq = vec![0 as i32; FREQ_TABLE_SIZE];
        let i = parallel::bwt_inplace(s.as_mut_slice(), a0.as_mut_slice(), Some(freq.as_mut_slice()), 0).expect("bwt failed");
        check_frequency_table(t, freq.as_slice(), FREQ_TABLE_SIZE);
        parallel::unbwt_inplace(s.as_mut_slice(), a1.as_mut_slice(), Some(freq.as_slice()), i, 0).expect("unbwt failed");
        assert_eq!(t, s.as_slice());
    }
}

#[test]
fn sais32_test_bwt_unbwt_aux_basic() {
    for t in texts() {
        let t = t.as_slice();
        let mut u = vec![0 as u8; t.len()];
        let mut s = vec![0 as u8; t.len()];
        let mut a0 = vec![0 as i32; t.len()];
        let mut a1 = vec![0 as i32; t.len().checked_add(1).unwrap()];

        for mut i in allocate_aux_arrays(t.len()) {
            // bwt_aux + unbwt_aux
            bwt_aux(t, u.as_mut_slice(), a0.as_mut_slice(), None, i.as_mut_slice()).expect("bwt failed");
            unbwt_aux(u.as_slice(), s.as_mut_slice(), a1.as_mut_slice(), None, i.as_slice()).expect("unbwt failed");
            assert_eq!(t, s.as_slice());

            // bwt_aux_inplace + unbwt_aux_inplace
            s.copy_from_slice(t);
            bwt_aux_inplace(s.as_mut_slice(), a0.as_mut_slice(), None, i.as_mut_slice()).expect("bwt failed");
            unbwt_aux_inplace(s.as_mut_slice(), a1.as_mut_slice(), None, i.as_slice()).expect("unbwt failed");
            assert_eq!(t, s.as_slice());

            // bwt_aux + unbwt_aux, w/ output symbol frequency table
            let mut freq = vec![0 as i32; FREQ_TABLE_SIZE];
            bwt_aux(t, u.as_mut_slice(), a0.as_mut_slice(), Some(freq.as_mut_slice()), i.as_mut_slice()).expect("bwt failed");
            check_frequency_table(t, freq.as_slice(), FREQ_TABLE_SIZE);
            unbwt_aux(u.as_slice(), s.as_mut_slice(), a1.as_mut_slice(), Some(freq.as_slice()), i.as_slice()).expect("unbwt failed");
            assert_eq!(t, s.as_slice());

            // bwt_aux_inplace + unbwt_aux_inplace, w/ output symbol frequency table
            s.copy_from_slice(t);
            let mut freq = vec![0 as i32; FREQ_TABLE_SIZE];
            bwt_aux_inplace(s.as_mut_slice(), a0.as_mut_slice(), Some(freq.as_mut_slice()), i.as_mut_slice()).expect("bwt failed");
            check_frequency_table(t, freq.as_slice(), FREQ_TABLE_SIZE);
            unbwt_aux_inplace(s.as_mut_slice(), a1.as_mut_slice(), Some(freq.as_slice()), i.as_slice()).expect("unbwt failed");
            assert_eq!(t, s.as_slice());
        }
    }
}

#[test]
fn sais32_test_bwt_unbwt_aux_context() {
    for t in texts() {
        let t = t.as_slice();
        let mut u = vec![0 as u8; t.len()];
        let mut s = vec![0 as u8; t.len()];
        let mut bwt_ctx = SaisContext::new().unwrap();
        let mut unbwt_ctx = UnbwtContext::new().unwrap();
        let mut a0 = vec![0 as i32; t.len()];
        let mut a1 = vec![0 as i32; t.len().checked_add(1).unwrap()];

        for mut i in allocate_aux_arrays(t.len()) {
            // bwt_aux + unbwt_aux
            bwt_ctx.bwt_aux(t, u.as_mut_slice(), a0.as_mut_slice(), None, i.as_mut_slice()).expect("bwt failed");
            unbwt_ctx.unbwt_aux(u.as_slice(), s.as_mut_slice(), a1.as_mut_slice(), None, i.as_slice()).expect("unbwt failed");
            assert_eq!(t, s.as_slice());

            // bwt_aux_inplace + unbwt_aux_inplace
            s.copy_from_slice(t);
            bwt_ctx.bwt_aux_inplace(s.as_mut_slice(), a0.as_mut_slice(), None, i.as_mut_slice()).expect("bwt failed");
            unbwt_ctx.unbwt_aux_inplace(s.as_mut_slice(), a1.as_mut_slice(), None, i.as_slice()).expect("unbwt failed");
            assert_eq!(t, s.as_slice());

            // bwt_aux + unbwt_aux, w/ output symbol frequency table
            let mut freq = vec![0 as i32; FREQ_TABLE_SIZE];
            bwt_ctx.bwt_aux(t, u.as_mut_slice(), a0.as_mut_slice(), Some(freq.as_mut_slice()), i.as_mut_slice()).expect("bwt failed");
            check_frequency_table(t, freq.as_slice(), FREQ_TABLE_SIZE);
            unbwt_ctx.unbwt_aux(u.as_slice(), s.as_mut_slice(), a1.as_mut_slice(), Some(freq.as_slice()), i.as_slice()).expect("unbwt failed");
            assert_eq!(t, s.as_slice());

            // bwt_aux_inplace + unbwt_aux_inplace, w/ output symbol frequency table
            s.copy_from_slice(t);
            let mut freq = vec![0 as i32; FREQ_TABLE_SIZE];
            bwt_ctx.bwt_aux_inplace(s.as_mut_slice(), a0.as_mut_slice(), Some(freq.as_mut_slice()), i.as_mut_slice()).expect("bwt failed");
            check_frequency_table(t, freq.as_slice(), FREQ_TABLE_SIZE);
            unbwt_ctx.unbwt_aux_inplace(s.as_mut_slice(), a1.as_mut_slice(), Some(freq.as_slice()), i.as_slice()).expect("unbwt failed");
            assert_eq!(t, s.as_slice());
        }
    }
}

#[test]
fn sais32_test_bwt_unbwt_aux_parallel() {
    for t in texts() {
        let t = t.as_slice();
        let mut u = vec![0 as u8; t.len()];
        let mut s = vec![0 as u8; t.len()];
        let mut a0 = vec![0 as i32; t.len()];
        let mut a1 = vec![0 as i32; t.len().checked_add(1).unwrap()];

        for mut i in allocate_aux_arrays(t.len()) {
            // bwt_aux + unbwt_aux
            parallel::bwt_aux(t, u.as_mut_slice(), a0.as_mut_slice(), None, i.as_mut_slice(), 0).expect("bwt failed");
            parallel::unbwt_aux(u.as_slice(), s.as_mut_slice(), a1.as_mut_slice(), None, i.as_slice(), 0).expect("unbwt failed");
            assert_eq!(t, s.as_slice());

            // bwt_aux_inplace + unbwt_aux_inplace
            s.copy_from_slice(t);
            parallel::bwt_aux_inplace(s.as_mut_slice(), a0.as_mut_slice(), None, i.as_mut_slice(), 0).expect("bwt failed");
            parallel::unbwt_aux_inplace(s.as_mut_slice(), a1.as_mut_slice(), None, i.as_slice(), 0).expect("unbwt failed");
            assert_eq!(t, s.as_slice());

            // bwt_aux + unbwt_aux, w/ output symbol frequency table
            let mut freq = vec![0 as i32; FREQ_TABLE_SIZE];
            parallel::bwt_aux(t, u.as_mut_slice(), a0.as_mut_slice(), Some(freq.as_mut_slice()), i.as_mut_slice(), 0).expect("bwt failed");
            check_frequency_table(t, freq.as_slice(), FREQ_TABLE_SIZE);
            parallel::unbwt_aux(u.as_slice(), s.as_mut_slice(), a1.as_mut_slice(), Some(freq.as_slice()), i.as_slice(), 0).expect("unbwt failed");
            assert_eq!(t, s.as_slice());

            // bwt_aux_inplace + unbwt_aux_inplace, w/ output symbol frequency table
            s.copy_from_slice(t);
            let mut freq = vec![0 as i32; FREQ_TABLE_SIZE];
            parallel::bwt_aux_inplace(s.as_mut_slice(), a0.as_mut_slice(), Some(freq.as_mut_slice()), i.as_mut_slice(), 0).expect("bwt failed");
            check_frequency_table(t, freq.as_slice(), FREQ_TABLE_SIZE);
            parallel::unbwt_aux_inplace(s.as_mut_slice(), a1.as_mut_slice(), Some(freq.as_slice()), i.as_slice(), 0).expect("unbwt failed");
            assert_eq!(t, s.as_slice());
        }
    }
}

#[test]
fn sais32_test_plcp_lcp_basic() {
    for t in texts() {
        let t = t.as_slice();
        let mut sa = vec![0 as i32; t.len()];
        let mut plcp_array = vec![0 as i32; t.len()];
        let mut lcp_array = vec![0 as i32; t.len()];

        sais(t, sa.as_mut_slice(), None).expect("sais failed");

        // plcp + lcp
        plcp(t, sa.as_slice(), plcp_array.as_mut_slice()).expect("plcp failed");
        lcp(plcp_array.as_slice(), sa.as_slice(), lcp_array.as_mut_slice()).expect("lcp failed");
        check_lcp_array(t, sa.as_slice(), lcp_array.as_slice());
    }
}

#[test]
fn sais32_test_plcp_lcp_parallel() {
    for t in texts() {
        let t = t.as_slice();
        let mut sa = vec![0 as i32; t.len()];
        let mut plcp_array = vec![0 as i32; t.len()];
        let mut lcp_array = vec![0 as i32; t.len()];

        parallel::sais(t, sa.as_mut_slice(), None, 0).expect("sais failed");

        // plcp + lcp
        parallel::plcp(t, sa.as_slice(), plcp_array.as_mut_slice(), 0).expect("plcp failed");
        parallel::lcp(plcp_array.as_slice(), sa.as_slice(), lcp_array.as_mut_slice(), 0).expect("lcp failed");
        check_lcp_array(t, sa.as_slice(), lcp_array.as_slice());
    }
}
