use sais::aux_index::{aux_length_exact, aux_rate_exact};
use sais::sais32::{bwt, bwt_aux, lcp, plcp, sais, unbwt, unbwt_aux, Error, FREQ_TABLE_SIZE};

struct Random(u64);

impl Random {
    fn next(&mut self) -> u64 {
        self.0 = self.0.wrapping_add(0x9e3779b97f4a7c15);
        let mut z = self.0;
        z = (z ^ (z >> 30)).wrapping_mul(0xbf58476d1ce4e5b9);
        z = (z ^ (z >> 27)).wrapping_mul(0x94d049bb133111eb);
        z ^ (z >> 31)
    }
}

fn small_texts() -> Vec<Vec<u8>> {
    let mut rng = Random(0xb3);
    let mut texts = Vec::new();
    for round in 0..1500 {
        let size = (rng.next() % 24) as usize;
        let letters = 1 + round % 4;
        texts.push((0..size).map(|_| b'a' + (rng.next() % letters) as u8).collect());
    }
    texts
}

fn sorted_suffixes(t: &[u8]) -> Vec<i32> {
    let mut order: Vec<usize> = (0..t.len()).collect();
    order.sort_by(|&a, &b| t[a..].cmp(&t[b..]));
    order.into_iter().map(|i| i as i32).collect()
}

/// The last column of the sorted rotations of the text with an end marker,
/// and the row of the text itself.
fn last_column(t: &[u8]) -> (Vec<u8>, i32) {
    let n = t.len();
    let mut with_marker: Vec<u16> = t.iter().map(|&c| c as u16 + 1).collect();
    with_marker.push(0);
    let mut rows: Vec<usize> = (0..=n).collect();
    rows.sort_by_key(|&r| {
        let mut rotation = with_marker[r..].to_vec();
        rotation.extend_from_slice(&with_marker[..r]);
        rotation
    });
    let mut column = Vec::new();
    let mut primary = 0;
    for (place, &r) in rows.iter().enumerate() {
        if r == 0 {
            primary = place as i32;
        } else {
            column.push(t[r - 1]);
        }
    }
    if n == 0 {
        primary = 0;
    }
    (column, primary)
}

#[test]
fn suffix_arrays_of_small_texts() {
    for t in small_texts() {
        let mut sa = vec![0i32; t.len()];
        let mut freq = vec![0i32; FREQ_TABLE_SIZE];
        sais(&t, &mut sa, Some(&mut freq)).expect("sais failed");
        assert_eq!(sa, sorted_suffixes(&t));
        for c in 0..FREQ_TABLE_SIZE {
            assert_eq!(freq[c] as usize, t.iter().filter(|&&x| x as usize == c).count());
        }
    }
}

#[test]
fn transforms_of_small_texts() {
    for t in small_texts() {
        let mut u = vec![0u8; t.len()];
        let mut a = vec![0i32; t.len()];
        let i = bwt(&t, &mut u, &mut a, None).expect("bwt failed");
        let (column, primary) = last_column(&t);
        assert_eq!(u, column);
        assert_eq!(i, primary);

        let mut s = vec![0u8; t.len()];
        let mut work = vec![0i32; t.len() + 1];
        unbwt(&u, &mut s, &mut work, None, i).expect("unbwt failed");
        assert_eq!(s, t);
    }
}

#[test]
fn only_transforms_are_read_back() {
    for u in small_texts().into_iter().take(300) {
        let n = u.len();
        let mut s = vec![0u8; n];
        let mut work = vec![0i32; n + 1];
        for i in 0..=n as i32 + 1 {
            match unbwt(&u, &mut s, &mut work, None, i) {
                Ok(()) => {
                    // what was read back has `u` as its transform, with this index
                    let (column, primary) = last_column(&s);
                    assert_eq!(column, u);
                    assert_eq!(primary, i);
                }
                Err(e) => {
                    assert_eq!(e, Error::IllegalArguments);
                    // no text with this transform and index: were there one,
                    // reading back would find it
                }
            }
        }
    }
}

#[test]
fn samples_of_small_texts() {
    for t in small_texts() {
        let n = t.len();
        let mut rate = 2;
        while rate <= 64 {
            let length = aux_length_exact(n, rate).unwrap();
            let exact = aux_rate_exact(n, length).unwrap();
            assert!(exact <= rate);
            assert_eq!(aux_length_exact(n, exact), Some(length));
            let mut u = vec![0u8; n];
            let mut a = vec![0i32; n];
            let mut i = vec![-1i32; length];
            bwt_aux(&t, &mut u, &mut a, None, &mut i).expect("bwt failed");
            for k in 0..length {
                if n == 0 {
                    assert_eq!(i[k], 0);
                } else {
                    assert_eq!(a[i[k] as usize - 1] as usize, k * exact);
                }
            }
            let mut s = vec![0u8; n];
            let mut work = vec![0i32; n + 1];
            unbwt_aux(&u, &mut s, &mut work, None, &i).expect("unbwt failed");
            assert_eq!(s, t);
            if length > 1 {
                i[length - 1] = if i[length - 1] == 1 { 2 } else { 1 };
                assert_eq!(
                    unbwt_aux(&u, &mut s, &mut work, None, &i),
                    Err(Error::IllegalArguments)
                );
            }
            rate *= 2;
        }
    }
}

#[test]
fn prefix_arrays_of_small_texts() {
    for t in small_texts() {
        let n = t.len();
        let mut sa = vec![0i32; n];
        let mut permuted = vec![0i32; n];
        let mut ordered = vec![0i32; n];
        sais(&t, &mut sa, None).expect("sais failed");
        plcp(&t, &sa, &mut permuted).expect("plcp failed");
        lcp(&permuted, &sa, &mut ordered).expect("lcp failed");
        for r in 0..n {
            let expected = if r == 0 {
                0
            } else {
                let a = &t[sa[r - 1] as usize..];
                let b = &t[sa[r] as usize..];
                a.iter().zip(b.iter()).take_while(|(x, y)| x == y).count()
            };
            assert_eq!(ordered[r] as usize, expected);
            assert_eq!(permuted[sa[r] as usize], ordered[r]);
        }
        // an order that is not the suffix array is found out
        if n >= 2 {
            sa.swap(0, 1);
            assert_eq!(plcp(&t, &sa, &mut permuted), Err(Error::IllegalArguments));
        }
    }
}
