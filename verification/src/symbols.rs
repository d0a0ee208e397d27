//! The symbol mapper: enumerates "function" names — from the export table, a
//! size-based heuristic, or a fixed simulated count — and assigns each one a
//! generated name built from a monotonically increasing index, so the renaming
//! table is injective within one run.

use vstd::prelude::*;

use crate::binary::{BinaryInfo, ExportEntry};

verus! {

/// One row of the renaming table: an original name and the generated name that
/// replaces it.
#[derive(Debug)]
pub struct SymbolEntry {
    pub original: String,
    pub generated: String,
}

/// How many names the size-based heuristic synthesizes for a structured
/// container without exports: `2 * section_count - 1`, never negative, clamped
/// to what a vector can hold.
pub open spec fn approx_count(n_sections: int) -> int {
    if n_sections == 0 {
        0
    } else if 2 * n_sections - 1 <= usize::MAX {
        2 * n_sections - 1
    } else {
        usize::MAX as int
    }
}

/// Number of simulated names for an unrecognized container.
pub const SIMULATED_COUNT: usize = 8;

pub open spec fn digit_char(d: nat) -> char {
    if d == 0 {
        '0'
    } else if d == 1 {
        '1'
    } else if d == 2 {
        '2'
    } else if d == 3 {
        '3'
    } else if d == 4 {
        '4'
    } else if d == 5 {
        '5'
    } else if d == 6 {
        '6'
    } else if d == 7 {
        '7'
    } else if d == 8 {
        '8'
    } else {
        '9'
    }
}

pub open spec fn digit_val(c: char) -> nat {
    if c == '0' {
        0
    } else if c == '1' {
        1
    } else if c == '2' {
        2
    } else if c == '3' {
        3
    } else if c == '4' {
        4
    } else if c == '5' {
        5
    } else if c == '6' {
        6
    } else if c == '7' {
        7
    } else if c == '8' {
        8
    } else {
        9
    }
}

/// The decimal digits of `n`, most significant first, without leading zeros.
pub open spec fn spec_decimal(n: nat) -> Seq<char>
    decreases n,
{
    if n < 10 {
        seq![digit_char(n)]
    } else {
        spec_decimal(n / 10).push(digit_char(n % 10))
    }
}

/// The numeric value a digit sequence denotes.
pub open spec fn seq_val(s: Seq<char>) -> nat
    decreases s.len(),
{
    if s.len() == 0 {
        0
    } else {
        seq_val(s.drop_last()) * 10 + digit_val(s.last())
    }
}

pub open spec fn zeros(k: nat) -> Seq<char> {
    Seq::new(k, |i: int| '0')
}

/// Zero-pads a digit sequence on the left to at least four characters.
pub open spec fn spec_pad4(s: Seq<char>) -> Seq<char> {
    if s.len() >= 4 {
        s
    } else {
        zeros((4 - s.len()) as nat) + s
    }
}

/// The generated name for 1-based index `i`: `f_` followed by the index,
/// zero-padded to at least four digits.
pub open spec fn spec_gen_name(i: nat) -> Seq<char> {
    "f_"@ + spec_pad4(spec_decimal(i))
}

/// The 1-based index a generated name embeds.
pub open spec fn name_index(s: Seq<char>) -> nat {
    seq_val(s.skip(2))
}

proof fn lemma_digit_roundtrip(d: nat)
    requires
        d < 10,
    ensures
        digit_val(digit_char(d)) == d,
{
}

proof fn lemma_decimal_value(n: nat)
    ensures
        seq_val(spec_decimal(n)) == n,
        spec_decimal(n).len() >= 1,
    decreases n,
{
    if n < 10 {
        lemma_digit_roundtrip(n);
        let s = spec_decimal(n);
        assert(s == seq![digit_char(n)]);
        assert(s.drop_last() =~= Seq::<char>::empty());
        assert(seq_val(s.drop_last()) == 0);
        assert(s.last() == digit_char(n));
        assert(seq_val(s) == seq_val(s.drop_last()) * 10 + digit_val(s.last()));
    } else {
        lemma_decimal_value(n / 10);
        lemma_digit_roundtrip(n % 10);
        let s = spec_decimal(n);
        assert(s.drop_last() =~= spec_decimal(n / 10));
        assert(s.last() == digit_char(n % 10));
        assert(seq_val(s) == (n / 10) * 10 + n % 10);
        vstd::arithmetic::div_mod::lemma_fundamental_div_mod(n as int, 10);
    }
}

proof fn lemma_zeros_val(k: nat)
    ensures
        seq_val(zeros(k)) == 0,
    decreases k,
{
    if k > 0 {
        lemma_zeros_val((k - 1) as nat);
        assert(zeros(k).drop_last() =~= zeros((k - 1) as nat));
        assert(zeros(k).last() == '0');
    }
}

proof fn lemma_prepend_zeros_val(k: nat, s: Seq<char>)
    ensures
        seq_val(zeros(k) + s) == seq_val(s),
    decreases s.len(),
{
    if s.len() == 0 {
        assert(zeros(k) + s =~= zeros(k));
        lemma_zeros_val(k);
    } else {
        let t = zeros(k) + s;
        assert(t.drop_last() =~= zeros(k) + s.drop_last());
        assert(t.last() == s.last());
        lemma_prepend_zeros_val(k, s.drop_last());
    }
}

/// Every generated name denotes its own index: reading the digits back after
/// the `f_` prefix gives the index the name was built from.
pub proof fn lemma_gen_name_value(i: nat)
    ensures
        name_index(spec_gen_name(i)) == i,
        spec_gen_name(i).len() >= 6,
{
    reveal_strlit("f_");
    lemma_decimal_value(i);
    let d = spec_decimal(i);
    let p = spec_pad4(d);
    assert(seq_val(p) == i) by {
        if d.len() < 4 {
            lemma_prepend_zeros_val((4 - d.len()) as nat, d);
        }
    }
    assert(spec_gen_name(i).skip(2) =~= p);
}

/// The renaming is injective: two distinct indices always receive distinct
/// generated names.
pub proof fn lemma_gen_name_injective(i: nat, j: nat)
    requires
        i != j,
    ensures
        spec_gen_name(i) != spec_gen_name(j),
{
    if spec_gen_name(i) == spec_gen_name(j) {
        lemma_gen_name_value(i);
        lemma_gen_name_value(j);
        assert(name_index(spec_gen_name(i)) == name_index(spec_gen_name(j)));
        assert(false);
    }
}

/// A whole renaming table whose generated names follow the index scheme has no
/// two rows sharing a generated name, and embeds strictly increasing indices.
pub proof fn lemma_mapping_injective(entries: Seq<SymbolEntry>)
    requires
        forall|k: int|
            0 <= k < entries.len() ==> (#[trigger] entries[k]).generated@ == spec_gen_name(
                (k + 1) as nat,
            ),
    ensures
        forall|k1: int, k2: int|
            0 <= k1 < entries.len() && 0 <= k2 < entries.len() && k1 != k2 ==> (
            #[trigger] entries[k1]).generated@ != (#[trigger] entries[k2]).generated@,
        forall|k1: int, k2: int|
            0 <= k1 < k2 < entries.len() ==> name_index((#[trigger] entries[k1]).generated@)
                < name_index((#[trigger] entries[k2]).generated@),
{
    assert forall|k1: int, k2: int|
        0 <= k1 < entries.len() && 0 <= k2 < entries.len() && k1 != k2 implies (
    #[trigger] entries[k1]).generated@ != (#[trigger] entries[k2]).generated@ by {
        lemma_gen_name_injective((k1 + 1) as nat, (k2 + 1) as nat);
    }
    assert forall|k1: int, k2: int|
        0 <= k1 < k2 < entries.len() implies name_index((#[trigger] entries[k1]).generated@)
        < name_index((#[trigger] entries[k2]).generated@) by {
        lemma_gen_name_value((k1 + 1) as nat);
        lemma_gen_name_value((k2 + 1) as nat);
    }
}

fn digit_str(d: u64) -> (r: &'static str)
    requires
        d < 10,
    ensures
        r@ == seq![digit_char(d as nat)],
{
    if d == 0 {
        proof {
            reveal_strlit("0");
            assert("0"@ =~= seq![digit_char(0)]);
        }
        "0"
    } else if d == 1 {
        proof {
            reveal_strlit("1");
            assert("1"@ =~= seq![digit_char(1)]);
        }
        "1"
    } else if d == 2 {
        proof {
            reveal_strlit("2");
            assert("2"@ =~= seq![digit_char(2)]);
        }
        "2"
    } else if d == 3 {
        proof {
            reveal_strlit("3");
            assert("3"@ =~= seq![digit_char(3)]);
        }
        "3"
    } else if d == 4 {
        proof {
            reveal_strlit("4");
            assert("4"@ =~= seq![digit_char(4)]);
        }
        "4"
    } else if d == 5 {
        proof {
            reveal_strlit("5");
            assert("5"@ =~= seq![digit_char(5)]);
        }
        "5"
    } else if d == 6 {
        proof {
            reveal_strlit("6");
            assert("6"@ =~= seq![digit_char(6)]);
        }
        "6"
    } else if d == 7 {
        proof {
            reveal_strlit("7");
            assert("7"@ =~= seq![digit_char(7)]);
        }
        "7"
    } else if d == 8 {
        proof {
            reveal_strlit("8");
            assert("8"@ =~= seq![digit_char(8)]);
        }
        "8"
    } else {
        proof {
            reveal_strlit("9");
            assert("9"@ =~= seq![digit_char(9)]);
        }
        "9"
    }
}

/// Renders `n` in decimal, most significant digit first.
pub fn dec_u64(n: u64) -> (r: String)
    ensures
        r@ == spec_decimal(n as nat),
    decreases n,
{
    if n < 10 {
        digit_str(n).to_owned()
    } else {
        let mut r = dec_u64(n / 10);
        r.append(digit_str(n % 10));
        proof {
            assert(r@ =~= spec_decimal((n / 10) as nat).push(digit_char((n % 10) as nat)));
        }
        r
    }
}

proof fn lemma_decimal_len(n: nat)
    ensures
        spec_decimal(n).len() >= 1,
        n < 10 ==> spec_decimal(n).len() == 1,
        10 <= n < 100 ==> spec_decimal(n).len() == 2,
        100 <= n < 1000 ==> spec_decimal(n).len() == 3,
        1000 <= n ==> spec_decimal(n).len() >= 4,
    decreases n,
{
    if n >= 10 {
        lemma_decimal_len(n / 10);
    }
}

/// Builds the generated name for 1-based index `i`: `f_` plus the index,
/// zero-padded to at least four digits.
pub fn gen_name(i: u64) -> (r: String)
    ensures
        r@ == spec_gen_name(i as nat),
{
    let mut r = "f_".to_owned();
    proof {
        lemma_decimal_len(i as nat);
    }
    if i < 10 {
        r.append("000");
        proof {
            reveal_strlit("000");
            assert("000"@ =~= zeros(3));
        }
    } else if i < 100 {
        r.append("00");
        proof {
            reveal_strlit("00");
            assert("00"@ =~= zeros(2));
        }
    } else if i < 1000 {
        r.append("0");
        proof {
            reveal_strlit("0");
            assert("0"@ =~= zeros(1));
        }
    }
    let digits = dec_u64(i);
    r.append(digits.as_str());
    proof {
        assert(r@ =~= spec_gen_name(i as nat));
    }
    r
}

/// One line of the persisted renaming table.
pub fn mapping_line(original: &str, generated: &str) -> (r: String)
    ensures
        r@ == original@ + " => "@ + generated@,
{
    let mut r = original.to_owned();
    r.append(" => ");
    r.append(generated);
    proof {
        assert(r@ =~= original@ + " => "@ + generated@);
    }
    r
}

/// The lines of the persisted renaming table, joined by single newlines.
pub open spec fn spec_joined_lines(ls: Seq<Seq<char>>) -> Seq<char>
    decreases ls.len(),
{
    if ls.len() == 0 {
        seq![]
    } else if ls.len() == 1 {
        ls[0]
    } else {
        spec_joined_lines(ls.drop_last()) + "\n"@ + ls.last()
    }
}

/// Joins the rendered mapping lines with newlines, in order.
pub fn join_lines(lines: &Vec<String>) -> (r: String)
    ensures
        r@ == spec_joined_lines(lines@.map_values(|s: String| s@)),
{
    let ghost views = lines@.map_values(|s: String| s@);
    let mut r = String::new();
    let mut i: usize = 0;
    while i < lines.len()
        invariant
            i <= lines@.len(),
            views == lines@.map_values(|s: String| s@),
            r@ == spec_joined_lines(views.take(i as int)),
        decreases lines@.len() - i,
    {
        if i > 0 {
            r.append("\n");
        }
        r.append(lines[i].as_str());
        proof {
            assert(views.take(i as int + 1).drop_last() =~= views.take(i as int));
            assert(views.take(i as int + 1).last() == views[i as int]);
            if i == 0 {
                assert(r@ =~= views[0]);
            }
        }
        i += 1;
    }
    proof {
        assert(views.take(views.len() as int) =~= views);
    }
    r
}

/// The original name the mapper uses for export entry `e` at position `i`: the
/// exported name itself, or a synthesized `export_<i>` placeholder when the
/// name is absent.
pub open spec fn spec_export_name(e: ExportEntry, i: int) -> Seq<char> {
    match e.name {
        Some(s) => s@,
        None => "export_"@ + spec_decimal(i as nat),
    }
}

/// `names` is exactly the list of original names the selection policy yields
/// for the classification `info`.
pub open spec fn symbols_planned(info: BinaryInfo, names: Seq<Seq<char>>) -> bool {
    match info {
        BinaryInfo::Structured { sections, exports, .. } => {
            if exports@.len() > 0 {
                &&& names.len() == exports@.len()
                &&& forall|k: int|
                    0 <= k < names.len() ==> #[trigger] names[k] == spec_export_name(
                        exports@[k],
                        k,
                    )
            } else {
                &&& names.len() == approx_count(sections@.len() as int)
                &&& forall|k: int|
                    0 <= k < names.len() ==> #[trigger] names[k] == "func_approx_"@
                        + spec_decimal((k + 1) as nat)
            }
        },
        BinaryInfo::Unrecognized => {
            &&& names.len() == SIMULATED_COUNT
            &&& forall|k: int|
                0 <= k < names.len() ==> #[trigger] names[k] == "sim_func_"@ + spec_decimal(
                    (k + 1) as nat,
                )
        },
    }
}

/// The renaming table matches the name list: row `k` maps original name `k` to
/// the generated name for 1-based index `k + 1`.
pub open spec fn mapping_ok(names: Seq<Seq<char>>, entries: Seq<SymbolEntry>) -> bool {
    &&& entries.len() == names.len()
    &&& forall|k: int|
        0 <= k < entries.len() ==> (#[trigger] entries[k]).original@ == names[k]
            && entries[k].generated@ == spec_gen_name((k + 1) as nat)
}

/// The persisted form of the renaming table for the given original names.
pub open spec fn spec_mapping_text(names: Seq<Seq<char>>) -> Seq<char> {
    spec_joined_lines(
        Seq::new(names.len(), |k: int| names[k] + " => "@ + spec_gen_name((k + 1) as nat)),
    )
}

/// Enumerates the original "function" names for one run, in priority order:
/// export names when the container exposes any (placeholders for nameless
/// entries), else `2 * section_count - 1` heuristic names, else a fixed count
/// of simulated names.
pub fn plan_symbols(info: &BinaryInfo) -> (names: Vec<String>)
    ensures
        symbols_planned(*info, names@.map_values(|s: String| s@)),
{
    let mut names: Vec<String> = Vec::new();
    match info {
        BinaryInfo::Structured { sections, exports, .. } => {
            if exports.len() > 0 {
                let mut i: usize = 0;
                while i < exports.len()
                    invariant
                        i <= exports@.len(),
                        names@.len() == i,
                        forall|k: int|
                            0 <= k < i ==> (#[trigger] names@[k])@ == spec_export_name(
                                exports@[k],
                                k,
                            ),
                    decreases exports@.len() - i,
                {
                    let e = &exports[i];
                    let name = match &e.name {
                        Some(s) => s.clone(),
                        None => {
                            let mut t = "export_".to_owned();
                            t.append(dec_u64(i as u64).as_str());
                            t
                        },
                    };
                    names.push(name);
                    i += 1;
                }
            } else {
                let c = sections.len();
                let approx: usize = if c == 0 {
                    0
                } else if c <= (usize::MAX - 1) / 2 {
                    2 * c - 1
                } else {
                    usize::MAX
                };
                proof {
                    assert(approx as int == approx_count(sections@.len() as int));
                }
                let mut i: usize = 0;
                while i < approx
                    invariant
                        i <= approx,
                        names@.len() == i,
                        forall|k: int|
                            0 <= k < i ==> (#[trigger] names@[k])@ == "func_approx_"@
                                + spec_decimal((k + 1) as nat),
                    decreases approx - i,
                {
                    let mut t = "func_approx_".to_owned();
                    t.append(dec_u64(i as u64 + 1).as_str());
                    names.push(t);
                    i += 1;
                }
            }
        },
        BinaryInfo::Unrecognized => {
            let mut i: usize = 0;
            while i < SIMULATED_COUNT
                invariant
                    i <= SIMULATED_COUNT,
                    names@.len() == i,
                    forall|k: int|
                        0 <= k < i ==> (#[trigger] names@[k])@ == "sim_func_"@ + spec_decimal(
                            (k + 1) as nat,
                        ),
                decreases SIMULATED_COUNT - i,
            {
                let mut t = "sim_func_".to_owned();
                t.append(dec_u64(i as u64 + 1).as_str());
                names.push(t);
                i += 1;
            }
        },
    }
    proof {
        let views = names@.map_values(|s: String| s@);
        assert(views.len() == names@.len());
        assert(forall|k: int| 0 <= k < views.len() ==> #[trigger] views[k] == names@[k]@);
    }
    names
}

} // verus!
