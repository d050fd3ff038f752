//! The command handlers: each one enforces its argument-count contract,
//! validates parameters, and drives the container. They take the raw
//! tokens (command name first) and the filter the key currently holds —
//! absent or present — and hand back a plain reply or an error; looking
//! the key up and storing the result back are the host's concern.

use vstd::prelude::*;
use crate::bloom_filter::{cap_total, lemma_add_steps_empty, lemma_add_steps_snoc, mem_total,
    BloomFilterType};
use crate::config::{Config, CAPACITY_BOUND, EXPANSION_MAX};
use crate::errors::BloomError;
use crate::params::FpRate;
use crate::parse::{default_fp_rate, fp_parse, is_capacity_kw, is_error_kw, is_expansion_kw,
    is_filters_kw, is_items_kw, is_nocreate_kw, is_nonscaling_kw, is_size_kw, kw_capacity,
    kw_error, kw_expansion, kw_filters, kw_items, kw_nocreate, kw_nonscaling, kw_size,
    parse_fp_rate, uint_parse, validate_capacity, validate_expansion};

verus! {

/// The numeric report of an info query.
#[derive(Clone, Copy, Debug, PartialEq, Eq, Structural)]
pub struct FilterInfo {
    pub capacity: i64,
    pub size: i64,
    pub filters: i64,
    pub items: i64,
    pub expansion: i64,
}

/// A successful command reply, as a plain value for the host to encode.
#[derive(Debug, PartialEq)]
pub enum Reply {
    /// A single integer result.
    Integer(i64),
    /// Positional integer results of a multi-item command.
    IntArray(Vec<i64>),
    /// A plain acknowledgement.
    Done,
    /// The full info report.
    Info(FilterInfo),
}

/// A 64-bit counter clamped into the signed range replies use.
pub open spec fn clamp_i64(x: u64) -> i64 {
    if x > i64::MAX {
        i64::MAX
    } else {
        x as i64
    }
}

/// Computes `clamp_i64(x)`.
pub fn clamp_i64_exec(x: u64) -> (r: i64)
    ensures
        r == clamp_i64(x),
{
    if x > 0x7FFF_FFFF_FFFF_FFFF {
        i64::MAX
    } else {
        x as i64
    }
}

/// The byte strings of the tokens `args[from..to]`.
pub open spec fn items_view(args: Seq<Vec<u8>>, from: int, to: int) -> Seq<Seq<u8>>
    recommends
        0 <= from <= to <= args.len(),
{
    args.subrange(from, to).map_values(|a: Vec<u8>| a@)
}

/// The starting state an add-style command works on: the filter the key
/// already held, or a fresh one with the given creation parameters.
pub open spec fn init_ok(
    pre: Option<BloomFilterType>,
    init: BloomFilterType,
    num: u64,
    pow: u32,
    capacity: u64,
    expansion: u32,
) -> bool {
    match pre {
        Some(f) => init == f,
        None => init.wf() && BloomFilterType::is_fresh(init, num, pow, capacity, expansion),
    }
}

/// Adds the items `args[from..]` to the filter in order, one `add_item`
/// outcome per item.
#[verifier::rlimit(100)]
fn run_adds(bf: &mut BloomFilterType, args: &Vec<Vec<u8>>, from: usize) -> (v: Vec<i64>)
    requires
        old(bf).wf(),
        from <= args.len(),
    ensures
        final(bf).wf(),
        v@.len() == args@.len() - from,
        BloomFilterType::add_steps(
            *old(bf),
            items_view(args@, from as int, args@.len() as int),
            *final(bf),
            v@,
        ),
{
    let ghost init = *bf;
    let mut v: Vec<i64> = Vec::new();
    let mut i: usize = from;
    proof {
        lemma_add_steps_empty(init);
        assert(items_view(args@, from as int, from as int) =~= Seq::<Seq<u8>>::empty());
        assert(v@ =~= Seq::<i64>::empty());
    }
    while i < args.len()
        invariant
            from <= i <= args.len(),
            bf.wf(),
            v@.len() == i - from,
            BloomFilterType::add_steps(init, items_view(args@, from as int, i as int), *bf, v@),
        decreases args.len() - i,
    {
        let ghost prev = *bf;
        let ghost vprev = v@;
        let n = bf.add_item(&args[i]);
        v.push(n);
        proof {
            lemma_add_steps_snoc(
                init,
                items_view(args@, from as int, i as int),
                prev,
                vprev,
                args@[i as int]@,
                *bf,
                n,
            );
            assert(items_view(args@, from as int, i + 1 as int) =~= items_view(
                args@,
                from as int,
                i as int,
            ).push(args@[i as int]@));
        }
        i = i + 1;
    }
    v
}

/// What an add-style command leaves behind: the filter the key held (or a
/// fresh default one), with the items added in order and reported
/// positionally.
pub open spec fn add_value_post(
    args: Seq<Vec<u8>>,
    multi: bool,
    pre: Option<BloomFilterType>,
    post: Option<BloomFilterType>,
    r: Result<Reply, BloomError>,
    cfg: Config,
) -> bool {
    let argc = args.len();
    if (!multi && argc != 3) || argc < 3 {
        r == Err::<Reply, BloomError>(BloomError::WrongArity) && post == pre
    } else {
        match post {
            Some(g) => g.wf() && exists|init: BloomFilterType|
                #[trigger] init_ok(
                    pre,
                    init,
                    1,
                    3,
                    cfg.default_capacity as u64,
                    cfg.default_expansion,
                ) && (if multi {
                    match r {
                        Ok(Reply::IntArray(v)) => v@.len() == argc - 2
                            && BloomFilterType::add_steps(
                            init,
                            items_view(args, 2, argc as int),
                            g,
                            v@,
                        ),
                        _ => false,
                    }
                } else {
                    match r {
                        Ok(Reply::Integer(n)) => BloomFilterType::add_step(init, args[2]@, g, n),
                        _ => false,
                    }
                }),
            None => false,
        }
    }
}

/// Adds one item (`multi` false: exactly one trailing token) or several
/// (`multi` true: one or more trailing tokens) to the filter at the key,
/// creating the filter with the default rate `0.001` and the process-wide
/// default capacity and expansion when the key is absent.
pub fn bloom_filter_add_value(
    args: &Vec<Vec<u8>>,
    multi: bool,
    filter: &mut Option<BloomFilterType>,
    cfg: &Config,
) -> (r: Result<Reply, BloomError>)
    requires
        cfg.wf(),
        *old(filter) matches Some(f) ==> f.wf(),
    ensures
        add_value_post(args@, multi, *old(filter), *final(filter), r, *cfg),
{
    let argc = args.len();
    if (!multi && argc != 3) || argc < 3 {
        return Err(BloomError::WrongArity);
    }
    if filter.is_none() {
        let fp = default_fp_rate();
        let mut bf = BloomFilterType::new_reserved(&fp, cfg.default_capacity, cfg.default_expansion);
        let ghost init_g = bf;
        let r = if multi {
            let v = run_adds(&mut bf, args, 2);
            Ok(Reply::IntArray(v))
        } else {
            let n = bf.add_item(&args[2]);
            Ok(Reply::Integer(n))
        };
        proof {
            assert(init_ok(
                *old(filter),
                init_g,
                1,
                3,
                cfg.default_capacity as u64,
                cfg.default_expansion,
            ));
        }
        *filter = Some(bf);
        r
    } else {
        let bf = filter.as_mut().unwrap();
        let ghost init_g = *bf;
        proof {
            assert(init_ok(
                *old(filter),
                init_g,
                1,
                3,
                cfg.default_capacity as u64,
                cfg.default_expansion,
            ));
        }
        if multi {
            let v = run_adds(bf, args, 2);
            Ok(Reply::IntArray(v))
        } else {
            let n = bf.add_item(&args[2]);
            Ok(Reply::Integer(n))
        }
    }
}

/// The reply value of an existence query against an optional filter.
pub open spec fn exists_val(filter: Option<&BloomFilterType>, item: Seq<u8>) -> i64 {
    match filter {
        Some(f) => if f.exists_in(item) {
            1
        } else {
            0
        },
        None => 0,
    }
}

/// Whether one item (or, with `multi`, each trailing item) is probably in
/// the filter at the key: `1` or `0` per item; an absent key answers `0`
/// and is never an error.
pub fn bloom_filter_exists(
    args: &Vec<Vec<u8>>,
    multi: bool,
    filter: Option<&BloomFilterType>,
) -> (r: Result<Reply, BloomError>)
    requires
        filter matches Some(f) ==> f.wf(),
    ensures
        ({
            let argc = args@.len();
            if (!multi && argc != 3) || argc < 3 {
                r == Err::<Reply, BloomError>(BloomError::WrongArity)
            } else if !multi {
                r == Ok::<Reply, BloomError>(Reply::Integer(exists_val(filter, args@[2]@)))
            } else {
                match r {
                    Ok(Reply::IntArray(v)) => v@.len() == argc - 2 && forall|k: int|
                        0 <= k < v@.len() ==> v@[k] == exists_val(filter, args@[2 + k]@),
                    _ => false,
                }
            }
        }),
{
    let argc = args.len();
    if (!multi && argc != 3) || argc < 3 {
        return Err(BloomError::WrongArity);
    }
    if !multi {
        let hit: i64 = match filter {
            Some(f) => if f.item_exists(&args[2]) {
                1
            } else {
                0
            },
            None => 0,
        };
        return Ok(Reply::Integer(hit));
    }
    let mut v: Vec<i64> = Vec::new();
    let mut i: usize = 2;
    while i < args.len()
        invariant
            2 <= i <= args@.len(),
            filter matches Some(f) ==> f.wf(),
            v@.len() == i - 2,
            forall|k: int| 0 <= k < v@.len() ==> v@[k] == exists_val(filter, args@[2 + k]@),
        decreases args.len() - i,
    {
        let hit: i64 = match filter {
            Some(f) => if f.item_exists(&args[i]) {
                1
            } else {
                0
            },
            None => 0,
        };
        v.push(hit);
        i = i + 1;
    }
    Ok(Reply::IntArray(v))
}

/// The running cardinality of the filter at the key; an absent key
/// answers `0` and is never an error.
pub fn bloom_filter_card(args: &Vec<Vec<u8>>, filter: Option<&BloomFilterType>) -> (r: Result<
    Reply,
    BloomError,
>)
    requires
        filter matches Some(f) ==> f.wf(),
    ensures
        args@.len() != 2 ==> r == Err::<Reply, BloomError>(BloomError::WrongArity),
        args@.len() == 2 ==> r == Ok::<Reply, BloomError>(
            Reply::Integer(
                match filter {
                    Some(f) => clamp_i64(f.num_items),
                    None => 0,
                },
            ),
        ),
{
    if args.len() != 2 {
        return Err(BloomError::WrongArity);
    }
    match filter {
        Some(f) => {
            let c = f.cardinality();
            Ok(Reply::Integer(clamp_i64_exec(c)))
        },
        None => Ok(Reply::Integer(0)),
    }
}

/// What a reserve leaves behind, stage by stage: arity, rate, capacity,
/// the optional scaling token, then the requirement that the key be
/// absent.
pub open spec fn reserve_post(
    args: Seq<Vec<u8>>,
    pre: Option<BloomFilterType>,
    post: Option<BloomFilterType>,
    r: Result<Reply, BloomError>,
    cfg: Config,
) -> bool {
    let argc = args.len();
    if argc < 4 || argc > 6 {
        r == Err::<Reply, BloomError>(BloomError::WrongArity) && post == pre
    } else {
        match fp_parse(args[2]@) {
            None => r == Err::<Reply, BloomError>(BloomError::InvalidErrorRate) && post == pre,
            Some(np) => {
                let cap_ok = match uint_parse(args[3]@) {
                    Some(c) => if 0 < c < CAPACITY_BOUND as u64 {
                        Some(c as u32)
                    } else {
                        None::<u32>
                    },
                    None => None::<u32>,
                };
                match cap_ok {
                    None => r == Err::<Reply, BloomError>(BloomError::InvalidCapacity) && post
                        == pre,
                    Some(cap) => {
                        let exp_ok: Result<u32, BloomError> = if argc == 4 {
                            Ok(cfg.default_expansion)
                        } else if argc == 5 {
                            if is_nonscaling_kw(args[4]@) {
                                Ok(0u32)
                            } else {
                                Err(BloomError::SyntaxError)
                            }
                        } else {
                            if is_expansion_kw(args[4]@) {
                                match uint_parse(args[5]@) {
                                    Some(e) => if 0 < e <= EXPANSION_MAX as u64 {
                                        Ok(e as u32)
                                    } else {
                                        Err(BloomError::InvalidExpansion)
                                    },
                                    None => Err(BloomError::InvalidExpansion),
                                }
                            } else {
                                Err(BloomError::SyntaxError)
                            }
                        };
                        match exp_ok {
                            Err(e) => r == Err::<Reply, BloomError>(e) && post == pre,
                            Ok(exp) => match pre {
                                Some(_) => r == Err::<Reply, BloomError>(BloomError::AlreadyExists)
                                    && post == pre,
                                None => match post {
                                    Some(g) => g.wf() && BloomFilterType::is_fresh(
                                        g,
                                        np.0,
                                        np.1,
                                        cap as u64,
                                        exp,
                                    ) && r == Ok::<Reply, BloomError>(Reply::Done),
                                    None => false,
                                },
                            },
                        }
                    },
                }
            },
        }
    }
}

/// Creates the filter at an absent key from an explicit rate and capacity
/// and an optional `NONSCALING` or `EXPANSION n` token; a present key is
/// an error and is never mutated.
pub fn bloom_filter_reserve(
    args: &Vec<Vec<u8>>,
    filter: &mut Option<BloomFilterType>,
    cfg: &Config,
) -> (r: Result<Reply, BloomError>)
    requires
        cfg.wf(),
        *old(filter) matches Some(f) ==> f.wf(),
    ensures
        reserve_post(args@, *old(filter), *final(filter), r, *cfg),
{
    let argc = args.len();
    if argc < 4 || argc > 6 {
        return Err(BloomError::WrongArity);
    }
    let fp = match parse_fp_rate(&args[2]) {
        Ok(fp) => fp,
        Err(e) => {
            return Err(e);
        },
    };
    let cap = match validate_capacity(&args[3]) {
        Ok(c) => c,
        Err(e) => {
            return Err(e);
        },
    };
    let exp: u32 = if argc == 4 {
        cfg.default_expansion
    } else if argc == 5 {
        if kw_nonscaling(&args[4]) {
            0
        } else {
            return Err(BloomError::SyntaxError);
        }
    } else {
        if kw_expansion(&args[4]) {
            match validate_expansion(&args[5]) {
                Ok(e) => e,
                Err(e) => {
                    return Err(e);
                },
            }
        } else {
            return Err(BloomError::SyntaxError);
        }
    };
    if filter.is_some() {
        return Err(BloomError::AlreadyExists);
    }
    let bf = BloomFilterType::new_reserved(&fp, cap, exp);
    *filter = Some(bf);
    Ok(Reply::Done)
}

/// Scan of the insert option tokens from index `i`, with the values
/// chosen so far: each keyword either updates a parameter, or `ITEMS`
/// ends the options, leaving the item list to its right. Running out of
/// tokens without `ITEMS`, an unknown keyword, and a keyword missing its
/// value are syntax errors.
pub open spec fn insert_scan(
    args: Seq<Vec<u8>>,
    i: int,
    fp: FpRate,
    cap: u32,
    exp: u32,
    nocreate: bool,
) -> Result<(FpRate, u32, u32, bool, int), BloomError>
    decreases args.len() - i,
{
    if i < 0 || i >= args.len() {
        Err(BloomError::SyntaxError)
    } else {
        let t = args[i]@;
        if is_error_kw(t) {
            if i + 1 < args.len() {
                match fp_parse(args[i + 1]@) {
                    Some(np) => insert_scan(
                        args,
                        i + 2,
                        FpRate { num: np.0, pow: np.1 },
                        cap,
                        exp,
                        nocreate,
                    ),
                    None => Err(BloomError::InvalidErrorRate),
                }
            } else {
                Err(BloomError::SyntaxError)
            }
        } else if is_capacity_kw(t) {
            if i + 1 < args.len() {
                match uint_parse(args[i + 1]@) {
                    Some(c) => if 0 < c < CAPACITY_BOUND as u64 {
                        insert_scan(args, i + 2, fp, c as u32, exp, nocreate)
                    } else {
                        Err(BloomError::InvalidCapacity)
                    },
                    None => Err(BloomError::InvalidCapacity),
                }
            } else {
                Err(BloomError::SyntaxError)
            }
        } else if is_nocreate_kw(t) {
            insert_scan(args, i + 1, fp, cap, exp, true)
        } else if is_nonscaling_kw(t) {
            insert_scan(args, i + 1, fp, cap, 0, nocreate)
        } else if is_expansion_kw(t) {
            if i + 1 < args.len() {
                match uint_parse(args[i + 1]@) {
                    Some(e) => if 0 < e <= EXPANSION_MAX as u64 {
                        insert_scan(args, i + 2, fp, cap, e as u32, nocreate)
                    } else {
                        Err(BloomError::InvalidExpansion)
                    },
                    None => Err(BloomError::InvalidExpansion),
                }
            } else {
                Err(BloomError::SyntaxError)
            }
        } else if is_items_kw(t) {
            if i + 1 < args.len() {
                Ok((fp, cap, exp, nocreate, i + 1))
            } else {
                Err(BloomError::SyntaxError)
            }
        } else {
            Err(BloomError::SyntaxError)
        }
    }
}

/// Scans the insert options, starting from the process-wide defaults.
#[verifier::loop_isolation(false)]
fn scan_insert_opts(args: &Vec<Vec<u8>>, cfg: &Config) -> (r: Result<
    (FpRate, u32, u32, bool, usize),
    BloomError,
>)
    requires
        cfg.wf(),
    ensures
        ({
            let s = insert_scan(
                args@,
                2,
                FpRate { num: 1, pow: 3 },
                cfg.default_capacity,
                cfg.default_expansion,
                false,
            );
            match s {
                Ok(t) => r matches Ok(u) && u.0 == t.0 && u.1 == t.1 && u.2 == t.2 && u.3 == t.3
                    && u.4 == t.4 && u.0.wf() && 1 <= u.1 && u.2 <= EXPANSION_MAX && 2 <= u.4
                    <= args@.len(),
                Err(e) => r == Err::<(FpRate, u32, u32, bool, usize), BloomError>(e),
            }
        }),
{
    let fp0 = default_fp_rate();
    let mut fp: FpRate = fp0;
    let mut cap: u32 = cfg.default_capacity;
    let mut exp: u32 = cfg.default_expansion;
    let mut nocreate: bool = false;
    let mut i: usize = 2;
    while i < args.len()
        invariant
            2 <= i,
            fp.wf(),
            1 <= cap,
            exp <= EXPANSION_MAX,
            insert_scan(
                args@,
                2,
                FpRate { num: 1, pow: 3 },
                cfg.default_capacity,
                cfg.default_expansion,
                false,
            ) == insert_scan(args@, i as int, fp, cap, exp, nocreate),
        decreases args.len() - i,
    {
        let t = &args[i];
        if kw_error(t) {
            if i + 1 < args.len() {
                match parse_fp_rate(&args[i + 1]) {
                    Ok(f) => {
                        fp = f;
                    },
                    Err(e) => {
                        return Err(e);
                    },
                }
                i = i + 2;
            } else {
                return Err(BloomError::SyntaxError);
            }
        } else if kw_capacity(t) {
            if i + 1 < args.len() {
                match validate_capacity(&args[i + 1]) {
                    Ok(c) => {
                        cap = c;
                    },
                    Err(e) => {
                        return Err(e);
                    },
                }
                i = i + 2;
            } else {
                return Err(BloomError::SyntaxError);
            }
        } else if kw_nocreate(t) {
            nocreate = true;
            i = i + 1;
        } else if kw_nonscaling(t) {
            exp = 0;
            i = i + 1;
        } else if kw_expansion(t) {
            if i + 1 < args.len() {
                match validate_expansion(&args[i + 1]) {
                    Ok(e) => {
                        exp = e;
                    },
                    Err(e) => {
                        return Err(e);
                    },
                }
                i = i + 2;
            } else {
                return Err(BloomError::SyntaxError);
            }
        } else if kw_items(t) {
            if i + 1 < args.len() {
                return Ok((fp, cap, exp, nocreate, i + 1));
            } else {
                return Err(BloomError::SyntaxError);
            }
        } else {
            return Err(BloomError::SyntaxError);
        }
    }
    Err(BloomError::SyntaxError)
}

/// What an insert leaves behind: options scanned left to right up to
/// `ITEMS`, then the items added in order to the existing filter, or to a
/// fresh one when the key is absent — unless `NOCREATE` turned an absent
/// key into an error.
pub open spec fn insert_post(
    args: Seq<Vec<u8>>,
    pre: Option<BloomFilterType>,
    post: Option<BloomFilterType>,
    r: Result<Reply, BloomError>,
    cfg: Config,
) -> bool {
    let argc = args.len();
    if argc < 4 {
        r == Err::<Reply, BloomError>(BloomError::WrongArity) && post == pre
    } else {
        match insert_scan(
            args,
            2,
            FpRate { num: 1, pow: 3 },
            cfg.default_capacity,
            cfg.default_expansion,
            false,
        ) {
            Err(e) => r == Err::<Reply, BloomError>(e) && post == pre,
            Ok(t) => {
                let (fp, cap, exp, nocreate, ii) = t;
                if pre is None && nocreate {
                    r == Err::<Reply, BloomError>(BloomError::NotFound) && post == pre
                } else {
                    match post {
                        Some(g) => g.wf() && exists|init: BloomFilterType|
                            #[trigger] init_ok(pre, init, fp.num, fp.pow, cap as u64, exp)
                                && match r {
                                Ok(Reply::IntArray(v)) => v@.len() == argc - ii
                                    && BloomFilterType::add_steps(
                                    init,
                                    items_view(args, ii, argc as int),
                                    g,
                                    v@,
                                ),
                                _ => false,
                            },
                        None => false,
                    }
                }
            },
        }
    }
}

/// The union of reserve's creation options and the multi-item add: scans
/// options up to `ITEMS`, creates the filter from them when the key is
/// absent (`NOCREATE` forbids that), and adds every item after `ITEMS`.
pub fn bloom_filter_insert(
    args: &Vec<Vec<u8>>,
    filter: &mut Option<BloomFilterType>,
    cfg: &Config,
) -> (r: Result<Reply, BloomError>)
    requires
        cfg.wf(),
        *old(filter) matches Some(f) ==> f.wf(),
    ensures
        insert_post(args@, *old(filter), *final(filter), r, *cfg),
{
    let argc = args.len();
    if argc < 4 {
        return Err(BloomError::WrongArity);
    }
    let (fp, cap, exp, nocreate, items_idx) = match scan_insert_opts(args, cfg) {
        Ok(t) => t,
        Err(e) => {
            return Err(e);
        },
    };
    if filter.is_none() {
        if nocreate {
            return Err(BloomError::NotFound);
        }
        let mut bf = BloomFilterType::new_reserved(&fp, cap, exp);
        let ghost init_g = bf;
        let v = run_adds(&mut bf, args, items_idx);
        proof {
            assert(init_ok(*old(filter), init_g, fp.num, fp.pow, cap as u64, exp));
        }
        *filter = Some(bf);
        Ok(Reply::IntArray(v))
    } else {
        let bf = filter.as_mut().unwrap();
        let ghost init_g = *bf;
        proof {
            assert(init_ok(*old(filter), init_g, fp.num, fp.pow, cap as u64, exp));
        }
        let v = run_adds(bf, args, items_idx);
        Ok(Reply::IntArray(v))
    }
}

/// The full info report of a filter.
pub open spec fn info_of(f: BloomFilterType) -> FilterInfo {
    FilterInfo {
        capacity: clamp_i64(cap_total(f.filters@)),
        size: clamp_i64(mem_total(f.filters@)),
        filters: clamp_i64(f.filters.len() as u64),
        items: clamp_i64(f.num_items),
        expansion: if f.expansion == 0 {
            -1 as i64
        } else {
            f.expansion as i64
        },
    }
}

/// What an info query answers: the full report, or the single requested
/// field, or a distinct error for an unknown field; a query against an
/// absent key is a distinct not-found error.
pub open spec fn info_post(
    args: Seq<Vec<u8>>,
    filter: Option<&BloomFilterType>,
    r: Result<Reply, BloomError>,
) -> bool {
    let argc = args.len();
    if argc < 2 || argc > 3 {
        r == Err::<Reply, BloomError>(BloomError::WrongArity)
    } else {
        match filter {
            None => r == Err::<Reply, BloomError>(BloomError::NotFound),
            Some(f) => if argc == 2 {
                r == Ok::<Reply, BloomError>(Reply::Info(info_of(*f)))
            } else {
                let t = args[2]@;
                if is_capacity_kw(t) {
                    r == Ok::<Reply, BloomError>(Reply::Integer(clamp_i64(cap_total(f.filters@))))
                } else if is_size_kw(t) {
                    r == Ok::<Reply, BloomError>(Reply::Integer(clamp_i64(mem_total(f.filters@))))
                } else if is_filters_kw(t) {
                    r == Ok::<Reply, BloomError>(
                        Reply::Integer(clamp_i64(f.filters.len() as u64)),
                    )
                } else if is_items_kw(t) {
                    r == Ok::<Reply, BloomError>(Reply::Integer(clamp_i64(f.num_items)))
                } else if is_expansion_kw(t) {
                    r == Ok::<Reply, BloomError>(
                        Reply::Integer(
                            if f.expansion == 0 {
                                -1 as i64
                            } else {
                                f.expansion as i64
                            },
                        ),
                    )
                } else {
                    r == Err::<Reply, BloomError>(BloomError::InvalidInfoValue)
                }
            },
        }
    }
}

/// Reports the filter's capacity, size, layer count, item count and
/// expansion rate — all of them, or the one field named by the trailing
/// token.
pub fn bloom_filter_info(args: &Vec<Vec<u8>>, filter: Option<&BloomFilterType>) -> (r: Result<
    Reply,
    BloomError,
>)
    requires
        filter matches Some(f) ==> f.wf(),
    ensures
        info_post(args@, filter, r),
{
    let argc = args.len();
    if argc < 2 || argc > 3 {
        return Err(BloomError::WrongArity);
    }
    let f = match filter {
        Some(f) => f,
        None => {
            return Err(BloomError::NotFound);
        },
    };
    if argc == 2 {
        let info = FilterInfo {
            capacity: clamp_i64_exec(f.capacity()),
            size: clamp_i64_exec(f.get_memory_usage()),
            filters: clamp_i64_exec(f.filters.len() as u64),
            items: clamp_i64_exec(f.cardinality()),
            expansion: if f.expansion == 0 {
                -1
            } else {
                f.expansion as i64
            },
        };
        return Ok(Reply::Info(info));
    }
    let t = &args[2];
    if kw_capacity(t) {
        Ok(Reply::Integer(clamp_i64_exec(f.capacity())))
    } else if kw_size(t) {
        Ok(Reply::Integer(clamp_i64_exec(f.get_memory_usage())))
    } else if kw_filters(t) {
        Ok(Reply::Integer(clamp_i64_exec(f.filters.len() as u64)))
    } else if kw_items(t) {
        Ok(Reply::Integer(clamp_i64_exec(f.cardinality())))
    } else if kw_expansion(t) {
        Ok(Reply::Integer(
            if f.expansion == 0 {
                -1
            } else {
                f.expansion as i64
            },
        ))
    } else {
        Err(BloomError::InvalidInfoValue)
    }
}

} // verus!
