use sais::common::{
    aux_rate, interpret_return_code_32, interpret_return_code_64, max_size, same_size, split_size,
    unbwt_sufficient_size,
};
use sais::errors::Error;
use sais::sais16;
use sais::sais32::{
    self, bwt, bwt_aux, lcp, parallel, plcp, sais, sais_int, unbwt, unbwt_aux, SaisContext,
    UnbwtContext, FREQ_TABLE_SIZE,
};
use sais::sais64;

const ILLEGAL: Error<i32> = Error::IllegalArguments;

#[test]
fn same_size_accepts_equal_sizes_only() {
    assert_eq!(same_size::<i32>(7, 7), Ok(7));
    assert_eq!(same_size::<i32>(0, 0), Ok(0));
    assert_eq!(same_size::<i32>(7, 8), Err(Error::IllegalArguments));
    assert_eq!(same_size::<i64>(8, 7), Err(Error::IllegalArguments));
}

#[test]
fn max_size_accepts_sizes_up_to_the_maximum() {
    assert_eq!(max_size::<i32>(7, 7), Ok(7));
    assert_eq!(max_size::<i32>(0, 7), Ok(0));
    assert_eq!(max_size::<i32>(8, 7), Err(Error::IllegalArguments));
}

#[test]
fn split_size_gives_length_and_free_space() {
    assert_eq!(split_size::<i32>(11, 11), Ok((11, 0)));
    assert_eq!(split_size::<i32>(11, 267), Ok((11, 256)));
    assert_eq!(split_size::<i64>(0, 5), Ok((0, 5)));
    assert_eq!(split_size::<i32>(12, 11), Err(Error::IllegalArguments));
}

#[test]
fn split_size_rejects_what_the_index_type_cannot_hold() {
    let limit = i32::MAX as usize;
    assert_eq!(split_size::<i32>(limit, limit), Ok((i32::MAX, 0)));
    assert_eq!(split_size::<i32>(0, limit), Ok((0, i32::MAX)));
    assert_eq!(split_size::<i32>(limit + 1, limit + 1), Err(Error::IllegalArguments));
    assert_eq!(split_size::<i32>(0, limit + 1), Err(Error::IllegalArguments));
    assert_eq!(split_size::<i64>(0, limit + 1), Ok((0, i32::MAX as i64 + 1)));
}

#[test]
fn unbwt_sufficient_size_wants_one_entry_to_spare() {
    assert_eq!(unbwt_sufficient_size::<i32>(11, 12), Ok(11));
    assert_eq!(unbwt_sufficient_size::<i32>(0, 1), Ok(0));
    assert_eq!(unbwt_sufficient_size::<i32>(11, 11), Err(Error::IllegalArguments));
    assert_eq!(unbwt_sufficient_size::<i32>(11, 10), Err(Error::IllegalArguments));
    assert_eq!(unbwt_sufficient_size::<i32>(0, 0), Err(Error::IllegalArguments));
    let beyond = i32::MAX as usize + 1;
    assert_eq!(unbwt_sufficient_size::<i32>(beyond, beyond + 1), Err(Error::IllegalArguments));
    assert_eq!(unbwt_sufficient_size::<i64>(beyond, beyond + 1), Ok(beyond as i64));
}

#[test]
fn aux_rate_wants_an_exact_length() {
    assert_eq!(aux_rate::<i32>(3, 11), Ok(4));
    assert_eq!(aux_rate::<i32>(6, 11), Ok(2));
    assert_eq!(aux_rate::<i32>(1, 11), Ok(16));
    assert_eq!(aux_rate::<i64>(1, 0), Ok(2));
    // five slots take the samples at rate 4, but rate 4 fills three only
    assert_eq!(aux_rate::<i32>(5, 11), Err(Error::IllegalArguments));
    assert_eq!(aux_rate::<i32>(0, 11), Err(Error::IllegalArguments));
    assert_eq!(aux_rate::<i32>(12, 11), Err(Error::IllegalArguments));
}

#[test]
fn aux_rate_rejects_a_rate_beyond_the_index_type() {
    let n = (1usize << 30) + 1;
    assert_eq!(aux_rate::<i32>(1, n), Err(Error::IllegalArguments));
    assert_eq!(aux_rate::<i64>(1, n), Ok(1i64 << 31));
}

#[test]
fn return_codes_32() {
    assert_eq!(interpret_return_code_32(0), Ok(0));
    assert_eq!(interpret_return_code_32(5), Ok(5));
    assert_eq!(interpret_return_code_32(i32::MAX), Ok(i32::MAX));
    assert_eq!(interpret_return_code_32(-1), Err(Error::IllegalArguments));
    assert_eq!(interpret_return_code_32(-2), Err(Error::InternalError));
    assert_eq!(interpret_return_code_32(-3), Err(Error::Uncategorized(-3)));
    assert_eq!(interpret_return_code_32(i32::MIN), Err(Error::Uncategorized(i32::MIN)));
}

#[test]
fn return_codes_64() {
    assert_eq!(interpret_return_code_64(0), Ok(0));
    assert_eq!(interpret_return_code_64(1 << 40), Ok(1 << 40));
    assert_eq!(interpret_return_code_64(-1), Err(Error::IllegalArguments));
    assert_eq!(interpret_return_code_64(-2), Err(Error::InternalError));
    assert_eq!(interpret_return_code_64(-77), Err(Error::Uncategorized(-77)));
}

#[test]
fn kind_names() {
    assert_eq!(Error::<i32>::IllegalArguments.kind_name(), "IllegalArguments");
    assert_eq!(Error::<i32>::InternalError.kind_name(), "InternalError");
    assert_eq!(Error::<i32>::Uncategorized(-9).kind_name(), "Uncategorized");
    assert_eq!(Error::<i64>::Uncategorized(-9).kind_name(), "Uncategorized");
}

#[test]
fn short_suffix_array_buffer_is_rejected() {
    let t: &[u8] = b"mississippi";
    let mut sa = vec![-1i32; t.len() - 1];
    assert_eq!(sais(t, &mut sa, None), Err(ILLEGAL));
    assert_eq!(sa, vec![-1i32; t.len() - 1]);
    assert_eq!(parallel::sais(t, &mut sa, None, 0), Err(ILLEGAL));
    let mut ctx = SaisContext::new().unwrap();
    assert_eq!(ctx.sais(t, &mut sa, None), Err(ILLEGAL));

    let mut u = vec![9u8; t.len()];
    assert_eq!(bwt(t, &mut u, &mut sa, None), Err(ILLEGAL));
    assert_eq!(u, vec![9u8; t.len()]);
    assert_eq!(sa, vec![-1i32; t.len() - 1]);
    assert_eq!(ctx.bwt(t, &mut u, &mut sa, None), Err(ILLEGAL));

    let mut empty: Vec<i32> = vec![];
    assert_eq!(sais(b"a", &mut empty, None), Err(ILLEGAL));

    let wide: Vec<u16> = vec![3, 1, 2];
    let mut short = vec![0i32; 2];
    assert_eq!(sais16::sais(&wide, &mut short, None), Err(ILLEGAL));
    let mut short = vec![0i64; 10];
    assert_eq!(sais64::sais(t, &mut short, None), Err(Error::IllegalArguments));
}

#[test]
fn table_of_wrong_size_is_rejected() {
    let t: &[u8] = b"mississippi";
    let mut sa = vec![-1i32; t.len()];
    let mut freq = vec![-1i32; FREQ_TABLE_SIZE - 1];
    assert_eq!(sais(t, &mut sa, Some(&mut freq)), Err(ILLEGAL));
    assert_eq!(sa, vec![-1i32; t.len()]);
    assert_eq!(freq, vec![-1i32; FREQ_TABLE_SIZE - 1]);
    let mut freq = vec![-1i32; FREQ_TABLE_SIZE + 1];
    assert_eq!(sais(t, &mut sa, Some(&mut freq)), Err(ILLEGAL));

    let mut u = vec![0u8; t.len()];
    assert_eq!(bwt(t, &mut u, &mut sa, Some(&mut freq)), Err(ILLEGAL));

    let wide: Vec<u16> = vec![3, 1, 2];
    let mut sa = vec![0i32; 3];
    let mut freq = vec![0i32; 256];
    assert_eq!(sais16::sais(&wide, &mut sa, Some(&mut freq)), Err(ILLEGAL));
    let mut freq = vec![0i32; sais16::FREQ_TABLE_SIZE];
    assert_eq!(sais16::sais(&wide, &mut sa, Some(&mut freq)), Ok(()));
    assert_eq!(sa, vec![1, 2, 0]);
    assert_eq!(freq[1], 1);
    assert_eq!(freq[0], 0);
}

#[test]
fn output_of_wrong_length_is_rejected() {
    let t: &[u8] = b"mississippi";
    let mut a = vec![0i32; t.len()];
    let mut u = vec![0u8; t.len() + 1];
    assert_eq!(bwt(t, &mut u, &mut a, None), Err(ILLEGAL));
    let mut u = vec![0u8; t.len() - 1];
    assert_eq!(bwt(t, &mut u, &mut a, None), Err(ILLEGAL));

    let mut work = vec![0i32; t.len() + 1];
    assert_eq!(unbwt(b"ipssmpissii", &mut u, &mut work, None, 5), Err(ILLEGAL));
}

#[test]
fn work_space_without_a_spare_entry_is_rejected() {
    let u: &[u8] = b"ipssmpissii";
    let mut s = vec![0u8; u.len()];
    let mut work = vec![0i32; u.len()];
    assert_eq!(unbwt(u, &mut s, &mut work, None, 5), Err(ILLEGAL));
    assert_eq!(parallel::unbwt(u, &mut s, &mut work, None, 5, 0), Err(ILLEGAL));
    let mut ctx = UnbwtContext::new().unwrap();
    assert_eq!(ctx.unbwt(u, &mut s, &mut work, None, 5), Err(ILLEGAL));
    assert_eq!(unbwt_aux(u, &mut s, &mut work, None, &[5, 3, 7]), Err(ILLEGAL));
    let mut work = vec![0i32; u.len() + 1];
    assert_eq!(unbwt(u, &mut s, &mut work, None, 5), Ok(()));
    assert_eq!(s, b"mississippi");

    let wide: Vec<u16> = vec![2, 3, 1];
    let mut back = vec![0u16; 3];
    let mut work = vec![0i32; 3];
    assert_eq!(sais16::unbwt(&wide, &mut back, &mut work, None, 3), Err(ILLEGAL));
    let mut work = vec![0i64; u.len()];
    assert_eq!(sais64::unbwt(u, &mut s, &mut work, None, 5), Err(Error::IllegalArguments));
}

#[test]
fn table_that_is_not_the_frequency_table_is_rejected() {
    let t: &[u8] = b"mississippi";
    let mut u = vec![0u8; t.len()];
    let mut a = vec![0i32; t.len()];
    let mut freq = vec![0i32; FREQ_TABLE_SIZE];
    let i = bwt(t, &mut u, &mut a, Some(&mut freq)).unwrap();

    let mut s = vec![0u8; t.len()];
    let mut work = vec![0i32; t.len() + 1];
    assert_eq!(unbwt(&u, &mut s, &mut work, Some(&freq), i), Ok(()));
    assert_eq!(s, t);

    freq[b'i' as usize] -= 1;
    freq[b'j' as usize] += 1;
    assert_eq!(unbwt(&u, &mut s, &mut work, Some(&freq), i), Err(ILLEGAL));
    assert_eq!(unbwt(&u, &mut s, &mut work, Some(&freq[..255]), i), Err(ILLEGAL));
}

#[test]
fn auxiliary_array_of_inexact_length_is_rejected() {
    let t: &[u8] = b"mississippi";
    let mut u = vec![0u8; t.len()];
    let mut a = vec![0i32; t.len()];
    let mut i = vec![-1i32; 5];
    assert_eq!(bwt_aux(t, &mut u, &mut a, None, &mut i), Err(ILLEGAL));
    assert_eq!(i, vec![-1i32; 5]);
    let mut none: Vec<i32> = vec![];
    assert_eq!(bwt_aux(t, &mut u, &mut a, None, &mut none), Err(ILLEGAL));
    let mut s = vec![0u8; t.len()];
    let mut work = vec![0i32; t.len() + 1];
    assert_eq!(unbwt_aux(b"ipssmpissii", &mut s, &mut work, None, &[5, 3, 7, 0, 0]), Err(ILLEGAL));
}

#[test]
fn negative_degree_is_rejected() {
    let t: &[u8] = b"mississippi";
    let mut sa = vec![-1i32; t.len()];
    assert_eq!(parallel::sais(t, &mut sa, None, -1), Err(ILLEGAL));
    assert_eq!(sa, vec![-1i32; t.len()]);
    assert_eq!(parallel::sais(t, &mut sa, None, 4), Ok(()));
    assert_eq!(sa, vec![10, 7, 4, 1, 0, 9, 8, 6, 3, 5, 2]);
    assert!(SaisContext::new_parallel(-1).is_none());
    assert!(UnbwtContext::new_parallel(-1).is_none());
    assert!(SaisContext::new_parallel(0).is_some());
    assert!(UnbwtContext::new_parallel(3).is_some());
    assert!(sais16::SaisContext::new_parallel(-5).is_none());
    assert_eq!(
        sais64::parallel::sais(t, &mut vec![0i64; t.len()], None, -1),
        Err(Error::IllegalArguments)
    );
}

#[test]
fn symbol_outside_the_alphabet_is_rejected() {
    let mut t = vec![2i32, 0, 1, 2];
    let mut sa = vec![-1i32; 4];
    assert_eq!(sais_int(&mut t, &mut sa, 2), Err(ILLEGAL));
    assert_eq!(sa, vec![-1i32; 4]);
    assert_eq!(sais_int(&mut t, &mut sa, 3), Ok(()));
    assert_eq!(sa, vec![1, 2, 3, 0]);
    assert_eq!(t, vec![2, 0, 1, 2]);
    let mut t = vec![0i32, -1];
    let mut sa = vec![0i32; 2];
    assert_eq!(sais_int(&mut t, &mut sa, 5), Err(ILLEGAL));
    assert_eq!(sais32::parallel::sais_int(&mut t, &mut sa, 5, 0), Err(ILLEGAL));
}

#[test]
fn order_that_is_not_the_suffix_array_is_rejected() {
    let t: &[u8] = b"abc";
    let mut out = vec![-1i32; 3];
    assert_eq!(plcp(t, &[0, 1, 1], &mut out), Err(ILLEGAL));
    assert_eq!(plcp(t, &[0, 1, 3], &mut out), Err(ILLEGAL));
    assert_eq!(plcp(t, &[0, -1, 2], &mut out), Err(ILLEGAL));
    assert_eq!(plcp(t, &[0, 1], &mut out), Err(ILLEGAL));
    assert_eq!(plcp(t, &[2, 1, 0], &mut out), Err(ILLEGAL));
    assert_eq!(plcp(t, &[0, 2, 1], &mut out), Err(ILLEGAL));
    assert_eq!(out, vec![-1i32; 3]);
    assert_eq!(plcp(t, &[0, 1, 2], &mut out), Ok(()));
    assert_eq!(out, vec![0, 0, 0]);
    assert_eq!(plcp(t, &[0, 1, 2, 9], &mut out), Ok(()));

    // equal first symbols are told apart by what follows them
    let mut out = vec![-1i32; 4];
    assert_eq!(plcp(b"abab", &[0, 2, 1, 3], &mut out), Err(ILLEGAL));
    assert_eq!(plcp(b"abab", &[2, 0, 3, 1], &mut out), Ok(()));
    assert_eq!(out, vec![2, 1, 0, 0]);
}

#[test]
fn order_with_an_entry_that_is_no_position_is_rejected() {
    let mut ordered = vec![-1i32; 3];
    assert_eq!(lcp(&[4, 5, 6], &[0, 3, 1], &mut ordered), Err(ILLEGAL));
    assert_eq!(lcp(&[4, 5, 6], &[0, -1, 1], &mut ordered), Err(ILLEGAL));
    assert_eq!(lcp(&[4, 5, 6], &[0, 1], &mut ordered), Err(ILLEGAL));
    assert_eq!(ordered, vec![-1i32; 3]);
    assert_eq!(lcp(&[4, 5, 6], &[2, 2, 0], &mut ordered), Ok(()));
    assert_eq!(ordered, vec![6, 6, 4]);
    let mut long = vec![0i32; 4];
    assert_eq!(lcp(&[4, 5, 6], &[2, 1, 0], &mut long), Err(ILLEGAL));
}
