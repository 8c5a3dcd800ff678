//! The pinyin input method: in ASCII mode keys pass straight through; in
//! pinyin mode letters compose a syllable that a digit, space or
//! punctuation commits as the chosen Chinese candidate (or as the raw
//! letters when the syllable is not in the table).

use vstd::prelude::*;
use crate::bytebuf::bytes_eq;

verus! {

/// Mode codes of the set-mode control command.
pub const IME_MODE_ASCII: u8 = 0;
pub const IME_MODE_ZH_PINYIN: u8 = 1;
/// Longest syllable held while composing.
pub const MAX_COMPOSING: usize = 24;
/// Most bytes one step hands to the shell.
pub const MAX_OUTPUT: usize = 64;
/// Entries in the candidate table.
pub const CANDIDATE_COUNT: usize = 19;

/// Pinyin key of candidate entry `i` (lower-case ASCII).
pub open spec fn spec_cand_key(i: int) -> Seq<u8> {
    if i == 0 { seq![0x6Eu8, 0x69u8] }
    else if i == 1 { seq![0x68u8, 0x61u8, 0x6Fu8] }
    else if i == 2 { seq![0x6Du8, 0x61u8] }
    else if i == 3 { seq![0x77u8, 0x6Fu8] }
    else if i == 4 { seq![0x6Du8, 0x65u8, 0x6Eu8] }
    else if i == 5 { seq![0x73u8, 0x68u8, 0x69u8] }
    else if i == 6 { seq![0x64u8, 0x65u8] }
    else if i == 7 { seq![0x7Au8, 0x61u8, 0x69u8] }
    else if i == 8 { seq![0x72u8, 0x65u8, 0x6Eu8] }
    else if i == 9 { seq![0x7Au8, 0x68u8, 0x6Fu8, 0x6Eu8, 0x67u8] }
    else if i == 10 { seq![0x67u8, 0x75u8, 0x6Fu8] }
    else if i == 11 { seq![0x77u8, 0x65u8, 0x6Eu8] }
    else if i == 12 { seq![0x61u8, 0x69u8] }
    else if i == 13 { seq![0x7Au8, 0x68u8, 0x69u8, 0x6Eu8, 0x65u8, 0x6Eu8, 0x67u8] }
    else if i == 14 { seq![0x7Au8, 0x68u8, 0x6Fu8, 0x6Eu8, 0x67u8, 0x77u8, 0x65u8, 0x6Eu8] }
    else if i == 15 { seq![0x78u8, 0x69u8, 0x74u8, 0x6Fu8, 0x6Eu8, 0x67u8] }
    else if i == 16 { seq![0x73u8, 0x68u8, 0x75u8, 0x72u8, 0x75u8] }
    else if i == 17 { seq![0x73u8, 0x68u8, 0x75u8, 0x72u8, 0x75u8, 0x66u8, 0x61u8] }
    else { seq![0x63u8, 0x65u8, 0x73u8, 0x68u8, 0x69u8] }
}

/// UTF-8 text of choice `j` (0..=2) of candidate entry `i`.
pub open spec fn spec_cand_choice(i: int, j: int) -> Seq<u8> {
    if i == 0 { if j == 0 { seq![0xE4u8, 0xBDu8, 0xA0u8] } else if j == 1 { seq![0xE5u8, 0x91u8, 0xA2u8] } else { seq![0xE5u8, 0xB0u8, 0xBCu8] } }
    else if i == 1 { if j == 0 { seq![0xE5u8, 0xA5u8, 0xBDu8] } else if j == 1 { seq![0xE5u8, 0x8Fu8, 0xB7u8] } else { seq![0xE6u8, 0xB5u8, 0xA9u8] } }
    else if i == 2 { if j == 0 { seq![0xE5u8, 0x90u8, 0x97u8] } else if j == 1 { seq![0xE5u8, 0x98u8, 0x9Bu8] } else { seq![0xE9u8, 0xA9u8, 0xACu8] } }
    else if i == 3 { if j == 0 { seq![0xE6u8, 0x88u8, 0x91u8] } else if j == 1 { seq![0xE6u8, 0x8Fu8, 0xA1u8] } else { seq![0xE7u8, 0xAAu8, 0x9Du8] } }
    else if i == 4 { if j == 0 { seq![0xE4u8, 0xBBu8, 0xACu8] } else if j == 1 { seq![0xE9u8, 0x97u8, 0xA8u8] } else { seq![0xE9u8, 0x97u8, 0xB7u8] } }
    else if i == 5 { if j == 0 { seq![0xE6u8, 0x98u8, 0xAFu8] } else if j == 1 { seq![0xE6u8, 0x97u8, 0xB6u8] } else { seq![0xE4u8, 0xBAu8, 0x8Bu8] } }
    else if i == 6 { if j == 0 { seq![0xE7u8, 0x9Au8, 0x84u8] } else if j == 1 { seq![0xE5u8, 0xBEu8, 0x97u8] } else { seq![0xE5u8, 0xBEu8, 0xB7u8] } }
    else if i == 7 { if j == 0 { seq![0xE5u8, 0x9Cu8, 0xA8u8] } else if j == 1 { seq![0xE5u8, 0x86u8, 0x8Du8] } else { seq![0xE8u8, 0xBDu8, 0xBDu8] } }
    else if i == 8 { if j == 0 { seq![0xE4u8, 0xBAu8, 0xBAu8] } else if j == 1 { seq![0xE4u8, 0xBBu8, 0x81u8] } else { seq![0xE8u8, 0xAEu8, 0xA4u8] } }
    else if i == 9 { if j == 0 { seq![0xE4u8, 0xB8u8, 0xADu8] } else if j == 1 { seq![0xE7u8, 0xA7u8, 0x8Du8] } else { seq![0xE9u8, 0x87u8, 0x8Du8] } }
    else if i == 10 { if j == 0 { seq![0xE5u8, 0x9Bu8, 0xBDu8] } else if j == 1 { seq![0xE8u8, 0xBFu8, 0x87u8] } else { seq![0xE6u8, 0x9Eu8, 0x9Cu8] } }
    else if i == 11 { if j == 0 { seq![0xE6u8, 0x96u8, 0x87u8] } else if j == 1 { seq![0xE9u8, 0x97u8, 0xAEu8] } else { seq![0xE9u8, 0x97u8, 0xBBu8] } }
    else if i == 12 { if j == 0 { seq![0xE7u8, 0x88u8, 0xB1u8] } else if j == 1 { seq![0xE8u8, 0x89u8, 0xBEu8] } else { seq![0xE7u8, 0xA2u8, 0x8Du8] } }
    else if i == 13 { if j == 0 { seq![0xE6u8, 0x99u8, 0xBAu8, 0xE8u8, 0x83u8, 0xBDu8] } else if j == 1 { seq![0xE8u8, 0x81u8, 0x8Cu8, 0xE8u8, 0x83u8, 0xBDu8] } else { seq![0xE8u8, 0xB4u8, 0xA8u8, 0xE8u8, 0x83u8, 0xBDu8] } }
    else if i == 14 { if j == 0 { seq![0xE4u8, 0xB8u8, 0xADu8, 0xE6u8, 0x96u8, 0x87u8] } else if j == 1 { seq![0xE9u8, 0x87u8, 0x8Du8, 0xE6u8, 0x96u8, 0x87u8] } else { seq![0xE4u8, 0xB8u8, 0xADu8, 0xE9u8, 0x97u8, 0xBBu8] } }
    else if i == 15 { if j == 0 { seq![0xE7u8, 0xB3u8, 0xBBu8, 0xE7u8, 0xBBu8, 0x9Fu8] } else if j == 1 { seq![0xE5u8, 0x8Du8, 0x8Fu8, 0xE5u8, 0x90u8, 0x8Cu8] } else { seq![0xE7u8, 0xBBu8, 0x86u8, 0xE7u8, 0xBBu8, 0x9Fu8] } }
    else if i == 16 { if j == 0 { seq![0xE8u8, 0xBEu8, 0x93u8, 0xE5u8, 0x85u8, 0xA5u8] } else if j == 1 { seq![0xE6u8, 0xB7u8, 0xB1u8, 0xE5u8, 0x85u8, 0xA5u8] } else { seq![0xE9u8, 0xA9u8, 0xB6u8, 0xE5u8, 0x85u8, 0xA5u8] } }
    else if i == 17 { if j == 0 { seq![0xE8u8, 0xBEu8, 0x93u8, 0xE5u8, 0x85u8, 0xA5u8, 0xE6u8, 0xB3u8, 0x95u8] } else if j == 1 { seq![0xE8u8, 0xBEu8, 0x93u8, 0xE5u8, 0x85u8, 0xA5u8, 0xE9u8, 0x98u8, 0x80u8] } else { seq![0xE6u8, 0xA0u8, 0x91u8, 0xE5u8, 0xA6u8, 0x82u8, 0xE6u8, 0xB3u8, 0x95u8] } }
    else { if j == 0 { seq![0xE6u8, 0xB5u8, 0x8Bu8, 0xE8u8, 0xAFu8, 0x95u8] } else if j == 1 { seq![0xE7u8, 0xADu8, 0x96u8, 0xE5u8, 0xA3u8, 0xABu8] } else { seq![0xE6u8, 0xB5u8, 0x8Bu8, 0xE5u8, 0xBCu8, 0x8Fu8] } }
}

fn cand_key(i: usize) -> (r: Vec<u8>)
    requires
        i < 19,
    ensures
        r@ == spec_cand_key(i as int),
{
    if i == 0 { let r = vec![0x6Eu8, 0x69u8]; assert(r@ =~= spec_cand_key(i as int)); r }
    else if i == 1 { let r = vec![0x68u8, 0x61u8, 0x6Fu8]; assert(r@ =~= spec_cand_key(i as int)); r }
    else if i == 2 { let r = vec![0x6Du8, 0x61u8]; assert(r@ =~= spec_cand_key(i as int)); r }
    else if i == 3 { let r = vec![0x77u8, 0x6Fu8]; assert(r@ =~= spec_cand_key(i as int)); r }
    else if i == 4 { let r = vec![0x6Du8, 0x65u8, 0x6Eu8]; assert(r@ =~= spec_cand_key(i as int)); r }
    else if i == 5 { let r = vec![0x73u8, 0x68u8, 0x69u8]; assert(r@ =~= spec_cand_key(i as int)); r }
    else if i == 6 { let r = vec![0x64u8, 0x65u8]; assert(r@ =~= spec_cand_key(i as int)); r }
    else if i == 7 { let r = vec![0x7Au8, 0x61u8, 0x69u8]; assert(r@ =~= spec_cand_key(i as int)); r }
    else if i == 8 { let r = vec![0x72u8, 0x65u8, 0x6Eu8]; assert(r@ =~= spec_cand_key(i as int)); r }
    else if i == 9 { let r = vec![0x7Au8, 0x68u8, 0x6Fu8, 0x6Eu8, 0x67u8]; assert(r@ =~= spec_cand_key(i as int)); r }
    else if i == 10 { let r = vec![0x67u8, 0x75u8, 0x6Fu8]; assert(r@ =~= spec_cand_key(i as int)); r }
    else if i == 11 { let r = vec![0x77u8, 0x65u8, 0x6Eu8]; assert(r@ =~= spec_cand_key(i as int)); r }
    else if i == 12 { let r = vec![0x61u8, 0x69u8]; assert(r@ =~= spec_cand_key(i as int)); r }
    else if i == 13 { let r = vec![0x7Au8, 0x68u8, 0x69u8, 0x6Eu8, 0x65u8, 0x6Eu8, 0x67u8]; assert(r@ =~= spec_cand_key(i as int)); r }
    else if i == 14 { let r = vec![0x7Au8, 0x68u8, 0x6Fu8, 0x6Eu8, 0x67u8, 0x77u8, 0x65u8, 0x6Eu8]; assert(r@ =~= spec_cand_key(i as int)); r }
    else if i == 15 { let r = vec![0x78u8, 0x69u8, 0x74u8, 0x6Fu8, 0x6Eu8, 0x67u8]; assert(r@ =~= spec_cand_key(i as int)); r }
    else if i == 16 { let r = vec![0x73u8, 0x68u8, 0x75u8, 0x72u8, 0x75u8]; assert(r@ =~= spec_cand_key(i as int)); r }
    else if i == 17 { let r = vec![0x73u8, 0x68u8, 0x75u8, 0x72u8, 0x75u8, 0x66u8, 0x61u8]; assert(r@ =~= spec_cand_key(i as int)); r }
    else { let r = vec![0x63u8, 0x65u8, 0x73u8, 0x68u8, 0x69u8]; assert(r@ =~= spec_cand_key(i as int)); r }
}

fn cand_choice(i: usize, j: usize) -> (r: Vec<u8>)
    requires
        i < 19,
        j < 3,
    ensures
        r@ == spec_cand_choice(i as int, j as int),
{
    if i == 0 { if j == 0 { let r = vec![0xE4u8, 0xBDu8, 0xA0u8]; assert(r@ =~= spec_cand_choice(i as int, j as int)); r } else if j == 1 { let r = vec![0xE5u8, 0x91u8, 0xA2u8]; assert(r@ =~= spec_cand_choice(i as int, j as int)); r } else { let r = vec![0xE5u8, 0xB0u8, 0xBCu8]; assert(r@ =~= spec_cand_choice(i as int, j as int)); r } }
    else if i == 1 { if j == 0 { let r = vec![0xE5u8, 0xA5u8, 0xBDu8]; assert(r@ =~= spec_cand_choice(i as int, j as int)); r } else if j == 1 { let r = vec![0xE5u8, 0x8Fu8, 0xB7u8]; assert(r@ =~= spec_cand_choice(i as int, j as int)); r } else { let r = vec![0xE6u8, 0xB5u8, 0xA9u8]; assert(r@ =~= spec_cand_choice(i as int, j as int)); r } }
    else if i == 2 { if j == 0 { let r = vec![0xE5u8, 0x90u8, 0x97u8]; assert(r@ =~= spec_cand_choice(i as int, j as int)); r } else if j == 1 { let r = vec![0xE5u8, 0x98u8, 0x9Bu8]; assert(r@ =~= spec_cand_choice(i as int, j as int)); r } else { let r = vec![0xE9u8, 0xA9u8, 0xACu8]; assert(r@ =~= spec_cand_choice(i as int, j as int)); r } }
    else if i == 3 { if j == 0 { let r = vec![0xE6u8, 0x88u8, 0x91u8]; assert(r@ =~= spec_cand_choice(i as int, j as int)); r } else if j == 1 { let r = vec![0xE6u8, 0x8Fu8, 0xA1u8]; assert(r@ =~= spec_cand_choice(i as int, j as int)); r } else { let r = vec![0xE7u8, 0xAAu8, 0x9Du8]; assert(r@ =~= spec_cand_choice(i as int, j as int)); r } }
    else if i == 4 { if j == 0 { let r = vec![0xE4u8, 0xBBu8, 0xACu8]; assert(r@ =~= spec_cand_choice(i as int, j as int)); r } else if j == 1 { let r = vec![0xE9u8, 0x97u8, 0xA8u8]; assert(r@ =~= spec_cand_choice(i as int, j as int)); r } else { let r = vec![0xE9u8, 0x97u8, 0xB7u8]; assert(r@ =~= spec_cand_choice(i as int, j as int)); r } }
    else if i == 5 { if j == 0 { let r = vec![0xE6u8, 0x98u8, 0xAFu8]; assert(r@ =~= spec_cand_choice(i as int, j as int)); r } else if j == 1 { let r = vec![0xE6u8, 0x97u8, 0xB6u8]; assert(r@ =~= spec_cand_choice(i as int, j as int)); r } else { let r = vec![0xE4u8, 0xBAu8, 0x8Bu8]; assert(r@ =~= spec_cand_choice(i as int, j as int)); r } }
    else if i == 6 { if j == 0 { let r = vec![0xE7u8, 0x9Au8, 0x84u8]; assert(r@ =~= spec_cand_choice(i as int, j as int)); r } else if j == 1 { let r = vec![0xE5u8, 0xBEu8, 0x97u8]; assert(r@ =~= spec_cand_choice(i as int, j as int)); r } else { let r = vec![0xE5u8, 0xBEu8, 0xB7u8]; assert(r@ =~= spec_cand_choice(i as int, j as int)); r } }
    else if i == 7 { if j == 0 { let r = vec![0xE5u8, 0x9Cu8, 0xA8u8]; assert(r@ =~= spec_cand_choice(i as int, j as int)); r } else if j == 1 { let r = vec![0xE5u8, 0x86u8, 0x8Du8]; assert(r@ =~= spec_cand_choice(i as int, j as int)); r } else { let r = vec![0xE8u8, 0xBDu8, 0xBDu8]; assert(r@ =~= spec_cand_choice(i as int, j as int)); r } }
    else if i == 8 { if j == 0 { let r = vec![0xE4u8, 0xBAu8, 0xBAu8]; assert(r@ =~= spec_cand_choice(i as int, j as int)); r } else if j == 1 { let r = vec![0xE4u8, 0xBBu8, 0x81u8]; assert(r@ =~= spec_cand_choice(i as int, j as int)); r } else { let r = vec![0xE8u8, 0xAEu8, 0xA4u8]; assert(r@ =~= spec_cand_choice(i as int, j as int)); r } }
    else if i == 9 { if j == 0 { let r = vec![0xE4u8, 0xB8u8, 0xADu8]; assert(r@ =~= spec_cand_choice(i as int, j as int)); r } else if j == 1 { let r = vec![0xE7u8, 0xA7u8, 0x8Du8]; assert(r@ =~= spec_cand_choice(i as int, j as int)); r } else { let r = vec![0xE9u8, 0x87u8, 0x8Du8]; assert(r@ =~= spec_cand_choice(i as int, j as int)); r } }
    else if i == 10 { if j == 0 { let r = vec![0xE5u8, 0x9Bu8, 0xBDu8]; assert(r@ =~= spec_cand_choice(i as int, j as int)); r } else if j == 1 { let r = vec![0xE8u8, 0xBFu8, 0x87u8]; assert(r@ =~= spec_cand_choice(i as int, j as int)); r } else { let r = vec![0xE6u8, 0x9Eu8, 0x9Cu8]; assert(r@ =~= spec_cand_choice(i as int, j as int)); r } }
    else if i == 11 { if j == 0 { let r = vec![0xE6u8, 0x96u8, 0x87u8]; assert(r@ =~= spec_cand_choice(i as int, j as int)); r } else if j == 1 { let r = vec![0xE9u8, 0x97u8, 0xAEu8]; assert(r@ =~= spec_cand_choice(i as int, j as int)); r } else { let r = vec![0xE9u8, 0x97u8, 0xBBu8]; assert(r@ =~= spec_cand_choice(i as int, j as int)); r } }
    else if i == 12 { if j == 0 { let r = vec![0xE7u8, 0x88u8, 0xB1u8]; assert(r@ =~= spec_cand_choice(i as int, j as int)); r } else if j == 1 { let r = vec![0xE8u8, 0x89u8, 0xBEu8]; assert(r@ =~= spec_cand_choice(i as int, j as int)); r } else { let r = vec![0xE7u8, 0xA2u8, 0x8Du8]; assert(r@ =~= spec_cand_choice(i as int, j as int)); r } }
    else if i == 13 { if j == 0 { let r = vec![0xE6u8, 0x99u8, 0xBAu8, 0xE8u8, 0x83u8, 0xBDu8]; assert(r@ =~= spec_cand_choice(i as int, j as int)); r } else if j == 1 { let r = vec![0xE8u8, 0x81u8, 0x8Cu8, 0xE8u8, 0x83u8, 0xBDu8]; assert(r@ =~= spec_cand_choice(i as int, j as int)); r } else { let r = vec![0xE8u8, 0xB4u8, 0xA8u8, 0xE8u8, 0x83u8, 0xBDu8]; assert(r@ =~= spec_cand_choice(i as int, j as int)); r } }
    else if i == 14 { if j == 0 { let r = vec![0xE4u8, 0xB8u8, 0xADu8, 0xE6u8, 0x96u8, 0x87u8]; assert(r@ =~= spec_cand_choice(i as int, j as int)); r } else if j == 1 { let r = vec![0xE9u8, 0x87u8, 0x8Du8, 0xE6u8, 0x96u8, 0x87u8]; assert(r@ =~= spec_cand_choice(i as int, j as int)); r } else { let r = vec![0xE4u8, 0xB8u8, 0xADu8, 0xE9u8, 0x97u8, 0xBBu8]; assert(r@ =~= spec_cand_choice(i as int, j as int)); r } }
    else if i == 15 { if j == 0 { let r = vec![0xE7u8, 0xB3u8, 0xBBu8, 0xE7u8, 0xBBu8, 0x9Fu8]; assert(r@ =~= spec_cand_choice(i as int, j as int)); r } else if j == 1 { let r = vec![0xE5u8, 0x8Du8, 0x8Fu8, 0xE5u8, 0x90u8, 0x8Cu8]; assert(r@ =~= spec_cand_choice(i as int, j as int)); r } else { let r = vec![0xE7u8, 0xBBu8, 0x86u8, 0xE7u8, 0xBBu8, 0x9Fu8]; assert(r@ =~= spec_cand_choice(i as int, j as int)); r } }
    else if i == 16 { if j == 0 { let r = vec![0xE8u8, 0xBEu8, 0x93u8, 0xE5u8, 0x85u8, 0xA5u8]; assert(r@ =~= spec_cand_choice(i as int, j as int)); r } else if j == 1 { let r = vec![0xE6u8, 0xB7u8, 0xB1u8, 0xE5u8, 0x85u8, 0xA5u8]; assert(r@ =~= spec_cand_choice(i as int, j as int)); r } else { let r = vec![0xE9u8, 0xA9u8, 0xB6u8, 0xE5u8, 0x85u8, 0xA5u8]; assert(r@ =~= spec_cand_choice(i as int, j as int)); r } }
    else if i == 17 { if j == 0 { let r = vec![0xE8u8, 0xBEu8, 0x93u8, 0xE5u8, 0x85u8, 0xA5u8, 0xE6u8, 0xB3u8, 0x95u8]; assert(r@ =~= spec_cand_choice(i as int, j as int)); r } else if j == 1 { let r = vec![0xE8u8, 0xBEu8, 0x93u8, 0xE5u8, 0x85u8, 0xA5u8, 0xE9u8, 0x98u8, 0x80u8]; assert(r@ =~= spec_cand_choice(i as int, j as int)); r } else { let r = vec![0xE6u8, 0xA0u8, 0x91u8, 0xE5u8, 0xA6u8, 0x82u8, 0xE6u8, 0xB3u8, 0x95u8]; assert(r@ =~= spec_cand_choice(i as int, j as int)); r } }
    else { if j == 0 { let r = vec![0xE6u8, 0xB5u8, 0x8Bu8, 0xE8u8, 0xAFu8, 0x95u8]; assert(r@ =~= spec_cand_choice(i as int, j as int)); r } else if j == 1 { let r = vec![0xE7u8, 0xADu8, 0x96u8, 0xE5u8, 0xA3u8, 0xABu8]; assert(r@ =~= spec_cand_choice(i as int, j as int)); r } else { let r = vec![0xE6u8, 0xB5u8, 0x8Bu8, 0xE5u8, 0xBCu8, 0x8Fu8]; assert(r@ =~= spec_cand_choice(i as int, j as int)); r } }
}

/// The first table entry whose key is `c`, searching from entry `i`.
pub open spec fn find_candidate_from(c: Seq<u8>, i: int) -> Option<int>
    decreases 19 - i,
{
    if i >= 19 || i < 0 {
        None
    } else if spec_cand_key(i) == c {
        Some(i)
    } else {
        find_candidate_from(c, i + 1)
    }
}

pub open spec fn candidate_of(c: Seq<u8>) -> Option<int> {
    find_candidate_from(c, 0)
}

/// Bytes committed for syllable `c` with selector `sel` (0-based): the
/// candidate's choice `min(sel, 2)`, or the letters themselves.
pub open spec fn commit_text(c: Seq<u8>, sel: int) -> Seq<u8> {
    match candidate_of(c) {
        Some(e) => spec_cand_choice(e, if sel < 2 { sel } else { 2 }),
        None => c,
    }
}

pub open spec fn is_letter(b: u8) -> bool {
    (0x61 <= b <= 0x7A) || (0x41 <= b <= 0x5A)
}

pub open spec fn lower(b: u8) -> u8 {
    if 0x41 <= b <= 0x5A { (b + 32) as u8 } else { b }
}

/// The ASCII punctuation that commits a pending syllable and then passes
/// through: `. , ; : ! ? ( ) [ ] { } " ' - _ / \ @ # $ % ^ & * + =`.
pub open spec fn spec_is_punct(b: u8) -> bool {
    b == 0x2E || b == 0x2C || b == 0x3B || b == 0x3A || b == 0x21 || b == 0x3F || b == 0x28 || b == 0x29
    || b == 0x5B || b == 0x5D || b == 0x7B || b == 0x7D || b == 0x22 || b == 0x27 || b == 0x2D || b == 0x5F
    || b == 0x2F || b == 0x5C || b == 0x40 || b == 0x23 || b == 0x24 || b == 0x25 || b == 0x5E || b == 0x26
    || b == 0x2A || b == 0x2B || b == 0x3D
}

/// Commit `c` with selector `sel`: the new syllable and the bytes sent.
pub open spec fn spec_commit(c: Seq<u8>, sel: int) -> (Seq<u8>, Seq<u8>) {
    if c.len() == 0 { (c, Seq::empty()) } else { (Seq::empty(), commit_text(c, sel)) }
}

/// One key in pinyin mode: the new syllable and the bytes sent.
pub open spec fn spec_pinyin_step(c: Seq<u8>, b: u8) -> (Seq<u8>, Seq<u8>) {
    if is_letter(b) {
        (if c.len() < MAX_COMPOSING { c.push(lower(b)) } else { c }, Seq::empty())
    } else if b == 0x08 || b == 0x7F {
        (if c.len() > 0 { c.drop_last() } else { c }, Seq::empty())
    } else if b == 0x1B || b == 0x03 {
        (Seq::empty(), Seq::empty())
    } else if 0x31 <= b <= 0x39 {
        spec_commit(c, b - 0x31)
    } else if b == 0x20 || b == 0x0A || b == 0x0D {
        spec_commit(c, 0)
    } else if spec_is_punct(b) {
        let (c2, out) = spec_commit(c, 0);
        (c2, out.push(b))
    } else {
        (c, Seq::empty())
    }
}

/// What reaches the input method: a set-mode command or a key byte.
#[derive(Clone, Copy, Debug, PartialEq, Eq, Structural)]
pub enum ImeInput {
    ModeControl { val: u8 },
    Key { byte: u8 },
}

/// Mode and pending syllable.
pub struct ImeState {
    pub mode: u8,
    pub composing: Vec<u8>,
}

impl View for ImeState {
    /// The input mode and the pending syllable.
    type V = (u8, Seq<u8>);

    open spec fn view(&self) -> (u8, Seq<u8>) {
        (self.mode, self.composing@)
    }
}

/// One step of the input method: new mode, new syllable, bytes sent.
pub open spec fn spec_ime_step(mode: u8, c: Seq<u8>, input: ImeInput) -> (u8, Seq<u8>, Seq<u8>) {
    match input {
        ImeInput::ModeControl { val } =>
            (if val == IME_MODE_ZH_PINYIN { IME_MODE_ZH_PINYIN } else { IME_MODE_ASCII }, Seq::empty(), Seq::empty()),
        ImeInput::Key { byte } =>
            if mode == IME_MODE_ASCII {
                (mode, c, seq![byte])
            } else {
                let (c2, out) = spec_pinyin_step(c, byte);
                (mode, c2, out)
            },
    }
}

pub proof fn lemma_choice_len(i: int, j: int)
    ensures
        spec_cand_choice(i, j).len() <= 9,
{
}

impl ImeState {
    pub open spec fn wf(&self) -> bool {
        self.composing@.len() <= MAX_COMPOSING
    }

    /// ASCII mode, nothing composed.
    pub fn new() -> (r: Self)
        ensures
            r.wf(),
            r@ == (IME_MODE_ASCII, Seq::<u8>::empty()),
    {
        ImeState { mode: IME_MODE_ASCII, composing: Vec::new() }
    }

    /// Drop the pending syllable.
    pub fn clear_composition(&mut self)
        requires
            old(self).wf(),
        ensures
            final(self).wf(),
            final(self)@ == (old(self)@.0, Seq::<u8>::empty()),
    {
        self.composing = Vec::new();
    }

    /// Commit the pending syllable with `selector`; returns the bytes for
    /// the shell (nothing when no syllable is pending).
    pub fn commit_selection(&mut self, selector: usize) -> (out: Vec<u8>)
        requires
            old(self).wf(),
        ensures
            final(self).wf(),
            final(self)@.0 == old(self)@.0,
            (final(self)@.1, out@) == spec_commit(old(self)@.1, selector as int),
            out@.len() <= MAX_COMPOSING,
    {
        if self.composing.len() == 0 {
            return Vec::new();
        }
        let out = match lookup_candidate(self.composing.as_slice()) {
            Some(e) => {
                let j = if selector < 2 { selector } else { 2 };
                proof { lemma_choice_len(e as int, j as int); }
                cand_choice(e, j)
            },
            None => copy_bytes(self.composing.as_slice()),
        };
        self.clear_composition();
        out
    }

    /// Feed one input; returns the bytes for the shell.
    pub fn process(&mut self, input: ImeInput) -> (out: Vec<u8>)
        requires
            old(self).wf(),
        ensures
            final(self).wf(),
            (final(self)@.0, final(self)@.1, out@) == spec_ime_step(old(self)@.0, old(self)@.1, input),
            out@.len() <= MAX_OUTPUT,
    {
        match input {
            ImeInput::ModeControl { val } => {
                self.mode = if val == IME_MODE_ZH_PINYIN { IME_MODE_ZH_PINYIN } else { IME_MODE_ASCII };
                self.clear_composition();
                Vec::new()
            },
            ImeInput::Key { byte } => {
                if self.mode == IME_MODE_ASCII {
                    let mut out: Vec<u8> = Vec::new();
                    out.push(byte);
                    assert(out@ =~= seq![byte]);
                    out
                } else {
                    self.process_pinyin(byte)
                }
            },
        }
    }

    fn process_pinyin(&mut self, byte: u8) -> (out: Vec<u8>)
        requires
            old(self).wf(),
        ensures
            final(self).wf(),
            final(self)@.0 == old(self)@.0,
            (final(self)@.1, out@) == spec_pinyin_step(old(self)@.1, byte),
            out@.len() <= MAX_OUTPUT,
    {
        if (0x61 <= byte && byte <= 0x7A) || (0x41 <= byte && byte <= 0x5A) {
            if self.composing.len() < MAX_COMPOSING {
                self.composing.push(normalize_letter(byte));
            }
            Vec::new()
        } else if byte == 0x08 || byte == 0x7F {
            if self.composing.len() > 0 {
                self.composing.pop();
            }
            Vec::new()
        } else if byte == 0x1B || byte == 0x03 {
            self.clear_composition();
            Vec::new()
        } else if 0x31 <= byte && byte <= 0x39 {
            self.commit_selection((byte - 0x31) as usize)
        } else if byte == 0x20 || byte == 0x0A || byte == 0x0D {
            self.commit_selection(0)
        } else if is_ascii_punctuation(byte) {
            let mut out = self.commit_selection(0);
            out.push(byte);
            out
        } else {
            Vec::new()
        }
    }
}

fn copy_bytes(s: &[u8]) -> (r: Vec<u8>)
    ensures
        r@ == s@,
{
    let mut r: Vec<u8> = Vec::new();
    let mut i: usize = 0;
    while i < s.len()
        invariant
            i <= s@.len(),
            r@ == s@.subrange(0, i as int),
        decreases s@.len() - i,
    {
        r.push(s[i]);
        i = i + 1;
        assert(r@ =~= s@.subrange(0, i as int));
    }
    assert(r@ =~= s@);
    r
}

/// Upper-case ASCII letters to lower case; other bytes unchanged.
pub fn normalize_letter(byte: u8) -> (r: u8)
    ensures
        r == lower(byte),
{
    if 0x41 <= byte && byte <= 0x5A { byte + 32 } else { byte }
}

pub fn is_ascii_punctuation(byte: u8) -> (r: bool)
    ensures
        r == spec_is_punct(byte),
{
    byte == 0x2E || byte == 0x2C || byte == 0x3B || byte == 0x3A || byte == 0x21 || byte == 0x3F
        || byte == 0x28 || byte == 0x29 || byte == 0x5B || byte == 0x5D || byte == 0x7B || byte == 0x7D
        || byte == 0x22 || byte == 0x27 || byte == 0x2D || byte == 0x5F || byte == 0x2F || byte == 0x5C
        || byte == 0x40 || byte == 0x23 || byte == 0x24 || byte == 0x25 || byte == 0x5E || byte == 0x26
        || byte == 0x2A || byte == 0x2B || byte == 0x3D
}


/// The table entry whose key is `key`, if any.
pub fn lookup_candidate(key: &[u8]) -> (r: Option<usize>)
    ensures
        r matches Some(e) ==> candidate_of(key@) == Some(e as int),
        r is None ==> candidate_of(key@) is None,
        r matches Some(e) ==> e < CANDIDATE_COUNT,
{
    let mut i: usize = 0;
    while i < CANDIDATE_COUNT
        invariant
            i <= 19,
            candidate_of(key@) == find_candidate_from(key@, i as int),
        decreases 19 - i,
    {
        let k = cand_key(i);
        if bytes_eq(k.as_slice(), key) {
            return Some(i);
        }
        i = i + 1;
    }
    None
}

} // verus!

verus! {

/// The punctuation the input method's documentation lists:
/// `. , ; : ! ? ( ) [ ] { } " ' - _ / \ @ # $ % ^ & * + =`.
pub open spec fn documented_punctuation() -> Seq<u8> {
    seq![0x2Eu8, 0x2Cu8, 0x3Bu8, 0x3Au8, 0x21u8, 0x3Fu8, 0x28u8, 0x29u8, 0x5Bu8, 0x5Du8, 0x7Bu8, 0x7Du8,
        0x22u8, 0x27u8, 0x2Du8, 0x5Fu8, 0x2Fu8, 0x5Cu8, 0x40u8, 0x23u8, 0x24u8, 0x25u8, 0x5Eu8, 0x26u8,
        0x2Au8, 0x2Bu8, 0x3Du8]
}

/// In pinyin mode a documented punctuation key commits the pending
/// syllable exactly as a space would and is then sent itself: nothing stays
/// composing, and what goes out is the space's commit followed by the key.
pub proof fn lemma_punctuation_commits_and_passes(c: Seq<u8>, i: int)
    requires
        0 <= i < documented_punctuation().len(),
    ensures
        ({
            let b = documented_punctuation()[i];
            let step = spec_ime_step(IME_MODE_ZH_PINYIN, c, ImeInput::Key { byte: b });
            let space = spec_ime_step(IME_MODE_ZH_PINYIN, c, ImeInput::Key { byte: 0x20 });
            &&& step.0 == IME_MODE_ZH_PINYIN
            &&& step.1 == Seq::<u8>::empty()
            &&& step.2 == space.2.push(b)
        }),
{
    let b = documented_punctuation()[i];
    assert(spec_is_punct(b));
    assert(!is_letter(b));
}

} // verus!
