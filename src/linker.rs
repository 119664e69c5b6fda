//! Choosing the real linker: the flag first, then the environment, then
//! well-known programs on the search path.

use vstd::prelude::*;
use crate::flags::opt_view;
use crate::invoke::ProxyError;
use crate::text::{string_of, token_views};

verus! {

/// The environment variables that may name the linker, in the order consulted.
pub open spec fn linker_env_vars_spec() -> Seq<Seq<char>> {
    seq![
        "CC_riscv32imafc_esp_espidf"@,
        "CC_riscv32imac_esp_espidf"@,
        "CC_riscv32imc_esp_espidf"@,
        "CC"@,
    ]
}

/// The programs looked for on the search path, in the order consulted.
pub open spec fn linker_candidates_spec() -> Seq<Seq<char>> {
    seq!["riscv32-esp-elf-gcc"@, "riscv32-unknown-elf-gcc"@, "riscv64-unknown-elf-gcc"@]
}

/// The first value that is set, from index `i` on.
pub open spec fn first_set(vals: Seq<Option<Seq<char>>>, i: int) -> Option<Seq<char>>
    decreases vals.len() - i,
{
    if i < 0 || i >= vals.len() {
        None
    } else if vals[i] is Some {
        vals[i]
    } else {
        first_set(vals, i + 1)
    }
}

/// The first name that was found, from index `i` on.
pub open spec fn first_found(names: Seq<Seq<char>>, found: Seq<bool>, i: int) -> Option<Seq<char>>
    decreases names.len() - i,
{
    if i < 0 || i >= names.len() || i >= found.len() {
        None
    } else if found[i] {
        Some(names[i])
    } else {
        first_found(names, found, i + 1)
    }
}

/// The linker that the fallback chain picks.
pub open spec fn resolved_linker(
    explicit: Option<Seq<char>>,
    env_values: Seq<Option<Seq<char>>>,
    on_path: Seq<bool>,
) -> Option<Seq<char>> {
    if explicit is Some {
        explicit
    } else if first_set(env_values, 0) is Some {
        first_set(env_values, 0)
    } else {
        first_found(linker_candidates_spec(), on_path, 0)
    }
}

/// The characters of each optional string.
pub open spec fn opt_views(v: Seq<Option<String>>) -> Seq<Option<Seq<char>>> {
    v.map_values(|o: Option<String>| opt_view(o))
}

/// The environment variables that may name the linker, in the order consulted.
pub fn linker_env_vars() -> (r: Vec<String>)
    ensures
        token_views(r@) == linker_env_vars_spec(),
{
    let mut r: Vec<String> = Vec::new();
    r.push(string_of("CC_riscv32imafc_esp_espidf"));
    r.push(string_of("CC_riscv32imac_esp_espidf"));
    r.push(string_of("CC_riscv32imc_esp_espidf"));
    r.push(string_of("CC"));
    assert(token_views(r@) =~= linker_env_vars_spec());
    r
}

/// The programs looked for on the search path, in the order consulted.
pub fn linker_candidates() -> (r: Vec<String>)
    ensures
        token_views(r@) == linker_candidates_spec(),
{
    let mut r: Vec<String> = Vec::new();
    r.push(string_of("riscv32-esp-elf-gcc"));
    r.push(string_of("riscv32-unknown-elf-gcc"));
    r.push(string_of("riscv64-unknown-elf-gcc"));
    assert(token_views(r@) =~= linker_candidates_spec());
    r
}

/// Picks the linker: the value of the linker flag; else the first of the
/// environment variables that is set (`env_values[i]` holds the value of the
/// `i`-th of `linker_env_vars`); else the first of `linker_candidates` that was
/// found on the search path (`on_path[i]`). Where none is, no linker is known.
pub fn resolve_linker(explicit: Option<String>, env_values: Vec<Option<String>>, on_path: Vec<bool>) -> (r: Result<String, ProxyError>)
    ensures
        match resolved_linker(
            opt_view(explicit),
            opt_views(env_values@),
            on_path@,
        ) {
            Some(l) => r matches Ok(s) && s@ == l,
            None => r matches Err(ProxyError::NoLinker),
        },
{
    match explicit {
        Some(l) => {
            return Ok(l);
        },
        None => {},
    }
    let ghost ev = opt_views(env_values@);
    assert(opt_view(explicit) is None);
    let mut vals = env_values;
    let mut i: usize = 0;
    while i < vals.len()
        invariant
            opt_view(explicit) is None,
            ev == opt_views(env_values@),
            ev == opt_views(vals@),
            i <= vals@.len(),
            first_set(ev, 0) == first_set(ev, i as int),
        decreases vals@.len() - i,
    {
        if vals[i].is_some() {
            let ghost old_vals = vals@;
            let v = vals.remove(i);
            assert(v == old_vals[i as int]);
            assert(ev[i as int] == Some(v.unwrap()@));
            assert(first_set(ev, i as int) == ev[i as int]);
            return Ok(v.unwrap());
        }
        i = i + 1;
    }
    assert(first_set(ev, 0) is None);
    let names = linker_candidates();
    let mut k: usize = 0;
    while k < names.len() && k < on_path.len()
        invariant
            opt_view(explicit) is None,
            first_set(ev, 0) is None,
            ev == opt_views(env_values@),
            token_views(names@) == linker_candidates_spec(),
            k <= names@.len(),
            first_found(linker_candidates_spec(), on_path@, 0) == first_found(linker_candidates_spec(), on_path@, k as int),
        decreases names@.len() - k,
    {
        if on_path[k] {
            let n = names[k].clone();
            assert(token_views(names@)[k as int] == n@);
            assert(first_found(linker_candidates_spec(), on_path@, k as int) == Some(n@));
            return Ok(n);
        }
        k = k + 1;
    }
    Err(ProxyError::NoLinker)
}

} // verus!
