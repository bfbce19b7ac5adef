use vstd::arithmetic::div_mod::{
    lemma_fundamental_div_mod, lemma_fundamental_div_mod_converse, lemma_mod_pos_bound,
};
use vstd::prelude::*;

verus! {

/// A parameter name with its list of values, as text.
pub type EntryView = (Seq<char>, Seq<Seq<char>>);

/// One job's parameter mapping, as text: (name, value) in key order.
pub type ParamsView = Seq<(Seq<char>, Seq<char>)>;

/// How parameter value lists are combined into jobs.
#[derive(Clone, Copy, Debug, PartialEq, Eq, Structural)]
pub enum ParamFormat {
    /// Zip equal-length lists: job `i` takes the `i`-th value of each parameter.
    Pairs,
    /// The full cross product of all value lists.
    Matrix,
}

/// A parameter definition the expander cannot use.
#[derive(Clone, Copy, Debug, PartialEq, Eq, Structural)]
pub enum ParamError {
    /// No `=`, an empty value list, or (pairs) lists of different lengths.
    InvalidParam,
}

pub open spec fn strs(v: Seq<String>) -> Seq<Seq<char>> {
    v.map_values(|s: String| s@)
}

pub open spec fn pairs_view(v: Seq<(String, String)>) -> ParamsView {
    v.map_values(|p: (String, String)| (p.0@, p.1@))
}

pub open spec fn table_view(v: Seq<(String, Vec<String>)>) -> Seq<EntryView> {
    v.map_values(|e: (String, Vec<String>)| (e.0@, strs(e.1@)))
}

/// `s` cut at every comma; an empty text gives one empty piece.
pub open spec fn split_commas(s: Seq<char>) -> Seq<Seq<char>>
    decreases s.len(),
{
    if s.len() == 0 {
        seq![Seq::<char>::empty()]
    } else {
        let parts = split_commas(s.drop_last());
        if s.last() == ',' {
            parts.push(Seq::<char>::empty())
        } else {
            parts.update(parts.len() - 1, parts.last().push(s.last()))
        }
    }
}

/// Index of the first `=` of `s` at or after `i`, or -1.
pub open spec fn first_eq_from(s: Seq<char>, i: int) -> int
    decreases s.len() - i,
{
    if i < 0 || i >= s.len() {
        -1
    } else if s[i] == '=' {
        i
    } else {
        first_eq_from(s, i + 1)
    }
}

/// The values written after the `=`: none when nothing follows it.
pub open spec fn values_of(rest: Seq<char>) -> Seq<Seq<char>> {
    if rest.len() == 0 {
        Seq::empty()
    } else {
        split_commas(rest)
    }
}

/// A definition `key=v1,v2,...` split on its first `=`; `None` without one.
pub open spec fn parse_def(d: Seq<char>) -> Option<EntryView> {
    let e = first_eq_from(d, 0);
    if e < 0 {
        None
    } else {
        Some((d.subrange(0, e), values_of(d.subrange(e + 1, d.len() as int))))
    }
}

/// Index of the first entry at or after `i` named `k`, or -1.
pub open spec fn key_index_from(t: Seq<EntryView>, k: Seq<char>, i: int) -> int
    decreases t.len() - i,
{
    if i < 0 || i >= t.len() {
        -1
    } else if t[i].0 == k {
        i
    } else {
        key_index_from(t, k, i + 1)
    }
}

/// Records `k` with values `vs`: a name seen before keeps its place and takes the new list.
pub open spec fn table_insert(t: Seq<EntryView>, k: Seq<char>, vs: Seq<Seq<char>>) -> Seq<EntryView> {
    let j = key_index_from(t, k, 0);
    if j < 0 {
        t.push((k, vs))
    } else {
        t.update(j, (k, vs))
    }
}

/// The parameter table read from `defs` in order, with the common list length
/// under pairs (0 under matrix); `None` when some definition is invalid.
pub open spec fn build_table(defs: Seq<Seq<char>>, pairs: bool) -> Option<(Seq<EntryView>, nat)>
    decreases defs.len(),
{
    if defs.len() == 0 {
        Some((Seq::empty(), 0nat))
    } else {
        match build_table(defs.drop_last(), pairs) {
            None => None,
            Some((t, n)) => match parse_def(defs.last()) {
                None => None,
                Some((k, vs)) => if vs.len() == 0 || (pairs && n != 0 && vs.len() != n) {
                    None
                } else {
                    Some((table_insert(t, k, vs), if pairs && n == 0 { vs.len() } else { n }))
                },
            },
        }
    }
}

proof fn lemma_split_commas_nonempty(s: Seq<char>)
    ensures
        split_commas(s).len() >= 1,
    decreases s.len(),
{
    if s.len() > 0 {
        lemma_split_commas_nonempty(s.drop_last());
    }
}

proof fn lemma_build_table_none_extends(defs: Seq<Seq<char>>, pairs: bool, i: int)
    requires
        0 <= i <= defs.len(),
        build_table(defs.subrange(0, i), pairs) is None,
    ensures
        build_table(defs, pairs) is None,
    decreases defs.len() - i,
{
    if i < defs.len() {
        assert(defs.subrange(0, i + 1).drop_last() =~= defs.subrange(0, i));
        lemma_build_table_none_extends(defs, pairs, i + 1);
    } else {
        assert(defs.subrange(0, i) =~= defs);
    }
}

/// Position of the first `=` in `s`.
fn find_eq(s: &str) -> (r: Option<usize>)
    ensures
        match r {
            Some(i) => i as int == first_eq_from(s@, 0),
            None => first_eq_from(s@, 0) < 0,
        },
{
    let n = s.unicode_len();
    let mut i: usize = 0;
    while i < n
        invariant
            n == s@.len(),
            0 <= i <= n,
            first_eq_from(s@, 0) == first_eq_from(s@, i as int),
        decreases n - i,
    {
        if s.get_char(i) == '=' {
            return Some(i);
        }
        i = i + 1;
    }
    None
}

/// The pieces of `s[from..]` between commas.
pub(crate) fn split_values(s: &str, from: usize) -> (r: Vec<String>)
    requires
        from <= s@.len(),
    ensures
        strs(r@) == split_commas(s@.subrange(from as int, s@.len() as int)),
{
    let n = s.unicode_len();
    let mut parts: Vec<String> = Vec::new();
    let mut start: usize = from;
    let mut i: usize = from;
    proof {
        assert(s@.subrange(from as int, from as int) =~= Seq::<char>::empty());
        assert(strs(parts@).push(Seq::<char>::empty()) =~= seq![Seq::<char>::empty()]);
    }
    while i < n
        invariant
            n == s@.len(),
            from <= start <= i <= n,
            split_commas(s@.subrange(from as int, i as int)) == strs(parts@).push(
                s@.subrange(start as int, i as int),
            ),
        decreases n - i,
    {
        let c = s.get_char(i);
        proof {
            let prev = s@.subrange(from as int, i as int);
            let next = s@.subrange(from as int, i + 1);
            assert(next.drop_last() =~= prev);
            assert(next.last() == c);
            lemma_split_commas_nonempty(prev);
        }
        if c == ',' {
            let piece = String::from_str(s.substring_char(start, i));
            let ghost before = parts@;
            parts.push(piece);
            start = i + 1;
            proof {
                assert(strs(parts@) =~= strs(before).push(piece@));
                assert(s@.subrange(start as int, i + 1) =~= Seq::<char>::empty());
            }
        } else {
            proof {
                assert(s@.subrange(start as int, i + 1) =~= s@.subrange(start as int, i as int).push(c));
            }
        }
        i = i + 1;
    }
    let last = String::from_str(s.substring_char(start, n));
    let ghost before = parts@;
    parts.push(last);
    proof {
        assert(strs(parts@) =~= strs(before).push(last@));
        assert(s@.subrange(from as int, n as int) =~= s@.subrange(from as int, s@.len() as int));
    }
    parts
}

proof fn lemma_first_eq_from_range(s: Seq<char>, i: int)
    requires
        first_eq_from(s, i) >= 0,
    ensures
        i <= first_eq_from(s, i) < s.len(),
        s[first_eq_from(s, i)] == '=',
    decreases s.len() - i,
{
    if s[i] != '=' {
        lemma_first_eq_from_range(s, i + 1);
    }
}

/// Splits one definition `key=v1,v2,...` on its first `=` into the key and
/// its comma-separated values; `None` when there is no `=`.
pub fn parse_param(def: &str) -> (r: Option<(String, Vec<String>)>)
    ensures
        match r {
            None => parse_def(def@) is None,
            Some((k, vs)) => parse_def(def@) == Some((k@, strs(vs@))),
        },
{
    match find_eq(def) {
        None => None,
        Some(e) => {
            proof {
                lemma_first_eq_from_range(def@, 0);
            }
            let key = String::from_str(def.substring_char(0, e));
            let n = def.unicode_len();
            let values = if e + 1 == n {
                Vec::new()
            } else {
                split_values(def, e + 1)
            };
            proof {
                if e + 1 == n {
                    assert(strs(values@) =~= Seq::<Seq<char>>::empty());
                }
            }
            Some((key, values))
        }
    }
}

/// Records `key` with `values` in `map`, replacing the list of a name seen before.
fn insert_entry(map: &mut Vec<(String, Vec<String>)>, key: String, values: Vec<String>)
    ensures
        table_view(final(map)@) == table_insert(table_view(old(map)@), key@, strs(values@)),
{
    let ghost t = table_view(map@);
    let mut j: usize = 0;
    while j < map.len()
        invariant
            t == table_view(map@),
            t == table_view(old(map)@),
            0 <= j <= map.len(),
            key_index_from(t, key@, 0) == key_index_from(t, key@, j as int),
        decreases map.len() - j,
    {
        if map[j].0 == key {
            let ghost entry = (key@, strs(values@));
            assert(t[j as int].0 == key@);
            assert(key_index_from(t, key@, j as int) == j);
            map.set(j, (key, values));
            proof {
                assert(table_view(map@) =~= t.update(j as int, entry));
            }
            return;
        }
        j = j + 1;
    }
    let ghost entry = (key@, strs(values@));
    map.push((key, values));
    proof {
        assert(table_view(map@) =~= t.push(entry));
    }
}

/// Reads the parameter definitions into a table of name and values, in order
/// of first appearance, with the common list length under pairs (0 under
/// matrix). Fails on a definition without `=`, one with no values, or under
/// pairs one whose list length differs from the first.
pub fn generate_map_for_params(params: &Vec<String>, format: ParamFormat) -> (r: Result<
    (Vec<(String, Vec<String>)>, usize),
    ParamError,
>)
    ensures
        match r {
            Ok((m, n)) => build_table(strs(params@), format == ParamFormat::Pairs) == Some(
                (table_view(m@), n as nat),
            ),
            Err(e) => build_table(strs(params@), format == ParamFormat::Pairs) is None && e
                == ParamError::InvalidParam,
        },
{
    let pairs = format == ParamFormat::Pairs;
    let ghost defs = strs(params@);
    let mut map: Vec<(String, Vec<String>)> = Vec::new();
    let mut param_length: usize = 0;
    let mut i: usize = 0;
    proof {
        assert(defs.subrange(0, 0) =~= Seq::<Seq<char>>::empty());
        assert(table_view(map@) =~= Seq::<EntryView>::empty());
    }
    while i < params.len()
        invariant
            defs == strs(params@),
            pairs == (format == ParamFormat::Pairs),
            0 <= i <= params.len(),
            build_table(defs.subrange(0, i as int), pairs) == Some(
                (table_view(map@), param_length as nat),
            ),
        decreases params.len() - i,
    {
        proof {
            assert(defs.subrange(0, i + 1).drop_last() =~= defs.subrange(0, i as int));
            assert(defs.subrange(0, i + 1).last() == params@[i as int]@);
        }
        match parse_param(params[i].as_str()) {
            None => {
                proof {
                    lemma_build_table_none_extends(defs, pairs, i + 1);
                }
                return Err(ParamError::InvalidParam);
            },
            Some((key, values)) => {
                if values.len() == 0 || (pairs && param_length != 0 && values.len()
                    != param_length) {
                    proof {
                        lemma_build_table_none_extends(defs, pairs, i + 1);
                    }
                    return Err(ParamError::InvalidParam);
                }
                if pairs && param_length == 0 {
                    param_length = values.len();
                }
                insert_entry(&mut map, key, values);
            },
        }
        i = i + 1;
    }
    proof {
        assert(defs.subrange(0, i as int) =~= defs);
    }
    Ok((map, param_length))
}

pub open spec fn jobs_view(v: Seq<Vec<(String, String)>>) -> Seq<ParamsView> {
    v.map_values(|p: Vec<(String, String)>| pairs_view(p@))
}

/// Pairs expansion: `n` jobs, job `i` holding the `i`-th value of every parameter.
pub open spec fn pair_jobs(t: Seq<EntryView>, n: nat) -> Seq<ParamsView> {
    Seq::new(n, |i: int| Seq::new(t.len(), |k: int| (t[k].0, t[k].1[i])))
}

/// Every assignment of `cs` extended by each value of `e`: value-major, so the
/// assignment at `v * |cs| + c` is `cs[c]` with the `v`-th value of `e`.
pub open spec fn extend(cs: Seq<ParamsView>, e: EntryView) -> Seq<ParamsView> {
    Seq::new(
        e.1.len() * cs.len(),
        |i: int| cs[i % (cs.len() as int)].push((e.0, e.1[i / (cs.len() as int)])),
    )
}

/// The cross product of the table's value lists, built one parameter at a time.
pub open spec fn cross(t: Seq<EntryView>) -> Seq<ParamsView>
    decreases t.len(),
{
    if t.len() == 0 {
        seq![Seq::empty()]
    } else {
        extend(cross(t.drop_last()), t.last())
    }
}

/// Matrix expansion: the cross product, and no job for an empty table.
pub open spec fn matrix_jobs(t: Seq<EntryView>) -> Seq<ParamsView> {
    if t.len() == 0 {
        Seq::empty()
    } else {
        cross(t)
    }
}

pub(crate) fn copy_params(p: &Vec<(String, String)>) -> (r: Vec<(String, String)>)
    ensures
        pairs_view(r@) == pairs_view(p@),
{
    let mut r: Vec<(String, String)> = Vec::new();
    let mut i: usize = 0;
    while i < p.len()
        invariant
            0 <= i <= p.len(),
            pairs_view(r@) =~= pairs_view(p@).subrange(0, i as int),
        decreases p.len() - i,
    {
        let ghost before = r@;
        r.push((p[i].0.clone(), p[i].1.clone()));
        proof {
            assert(pairs_view(r@) =~= pairs_view(before).push(pairs_view(p@)[i as int]));
        }
        i = i + 1;
    }
    proof {
        assert(pairs_view(p@).subrange(0, i as int) =~= pairs_view(p@));
    }
    r
}

/// Pairs expansion of a table whose value lists all hold at least `n` values.
pub fn generate_param_pairs(params: &Vec<(String, Vec<String>)>, n: usize) -> (r: Vec<
    Vec<(String, String)>,
>)
    requires
        forall|k: int| 0 <= k < params@.len() ==> n <= (#[trigger] params@[k]).1@.len(),
    ensures
        jobs_view(r@) == pair_jobs(table_view(params@), n as nat),
{
    let ghost t = table_view(params@);
    let mut jobs: Vec<Vec<(String, String)>> = Vec::new();
    let mut i: usize = 0;
    while i < n
        invariant
            t == table_view(params@),
            forall|k: int| 0 <= k < params@.len() ==> n <= (#[trigger] params@[k]).1@.len(),
            0 <= i <= n,
            jobs_view(jobs@) =~= pair_jobs(t, n as nat).subrange(0, i as int),
        decreases n - i,
    {
        let mut job: Vec<(String, String)> = Vec::new();
        let mut k: usize = 0;
        while k < params.len()
            invariant
                t == table_view(params@),
                forall|k: int| 0 <= k < params@.len() ==> n <= (#[trigger] params@[k]).1@.len(),
                0 <= i < n,
                0 <= k <= params.len(),
                pairs_view(job@) =~= Seq::new(k as nat, |kk: int| (t[kk].0, t[kk].1[i as int])),
            decreases params.len() - k,
        {
            let key = params[k].0.clone();
            let value = params[k].1[i].clone();
            let ghost before = job@;
            job.push((key, value));
            proof {
                assert(pairs_view(job@) =~= pairs_view(before).push((t[k as int].0, t[k as int].1[i as int])));
            }
            k = k + 1;
        }
        let ghost before = jobs@;
        jobs.push(job);
        proof {
            assert(jobs_view(jobs@) =~= jobs_view(before).push(pairs_view(job@)));
        }
        i = i + 1;
    }
    proof {
        assert(pair_jobs(t, n as nat).subrange(0, n as int) =~= pair_jobs(t, n as nat));
    }
    jobs
}

proof fn lemma_index_split(v: int, nc: int, c: int)
    requires
        0 <= v,
        0 <= c < nc,
    ensures
        (v * nc + c) / nc == v,
        (v * nc + c) % nc == c,
{
    lemma_fundamental_div_mod_converse(v * nc + c, nc, v, c);
}

/// Matrix expansion: every combination of one value per parameter.
pub fn generate_param_combos(params: &Vec<(String, Vec<String>)>) -> (r: Vec<
    Vec<(String, String)>,
>)
    ensures
        jobs_view(r@) == matrix_jobs(table_view(params@)),
{
    let ghost t = table_view(params@);
    if params.len() == 0 {
        let r: Vec<Vec<(String, String)>> = Vec::new();
        proof {
            assert(jobs_view(r@) =~= Seq::<ParamsView>::empty());
        }
        return r;
    }
    let mut combos: Vec<Vec<(String, String)>> = Vec::new();
    combos.push(Vec::new());
    proof {
        assert(t.subrange(0, 0) =~= Seq::<EntryView>::empty());
        assert(pairs_view(combos@[0]@) =~= Seq::<(Seq<char>, Seq<char>)>::empty());
        assert(jobs_view(combos@) =~= cross(t.subrange(0, 0)));
    }
    let mut k: usize = 0;
    while k < params.len()
        invariant
            t == table_view(params@),
            0 <= k <= params.len(),
            jobs_view(combos@) == cross(t.subrange(0, k as int)),
        decreases params.len() - k,
    {
        let ghost cs = jobs_view(combos@);
        let ghost e = t[k as int];
        let nv = params[k].1.len();
        let nc = combos.len();
        let mut next: Vec<Vec<(String, String)>> = Vec::new();
        let mut v: usize = 0;
        while v < nv
            invariant
                t == table_view(params@),
                0 <= k < params.len(),
                e == t[k as int],
                cs == jobs_view(combos@),
                nv == e.1.len(),
                nc == cs.len(),
                0 <= v <= nv,
                v * nc <= nv * nc,
                jobs_view(next@) =~= extend(cs, e).subrange(0, v * nc),
            decreases nv - v,
        {
            let mut c: usize = 0;
            proof {
                assert(v * nc + nc <= nv * nc) by (nonlinear_arith)
                    requires
                        v < nv,
                ;
            }
            while c < nc
                invariant
                    t == table_view(params@),
                    0 <= k < params.len(),
                    e == t[k as int],
                    cs == jobs_view(combos@),
                    nv == e.1.len(),
                    nc == cs.len(),
                    0 <= v < nv,
                    0 <= c <= nc,
                    v * nc + c <= nv * nc,
                    jobs_view(next@) =~= extend(cs, e).subrange(0, v * nc + c),
                decreases nc - c,
            {
                let mut combo = copy_params(&combos[c]);
                let key = params[k].0.clone();
                let value = params[k].1[v].clone();
                let ghost base = combo@;
                combo.push((key, value));
                let ghost before = next@;
                next.push(combo);
                proof {
                    lemma_index_split(v as int, nc as int, c as int);
                    assert(v * nc + c < nv * nc) by (nonlinear_arith)
                        requires
                            v < nv,
                            c < nc,
                    ;
                    assert(pairs_view(combo@) =~= pairs_view(base).push((key@, value@)));
                    assert(jobs_view(next@) =~= jobs_view(before).push(pairs_view(combo@)));
                }
                c = c + 1;
            }
            proof {
                assert(v * nc + nc == (v + 1) * nc) by (nonlinear_arith);
                assert((v + 1) * nc <= nv * nc) by (nonlinear_arith)
                    requires
                        v < nv,
                ;
            }
            v = v + 1;
        }
        proof {
            assert(extend(cs, e).subrange(0, nv * nc) =~= extend(cs, e));
            assert(t.subrange(0, k + 1).drop_last() =~= t.subrange(0, k as int));
        }
        combos = next;
        k = k + 1;
    }
    proof {
        assert(t.subrange(0, k as int) =~= t);
    }
    combos
}

/// What expanding `defs` under `format` yields: the jobs' parameter mappings,
/// or `None` when the definitions are invalid.
pub open spec fn expansion(defs: Seq<Seq<char>>, format: ParamFormat) -> Option<Seq<ParamsView>> {
    match build_table(defs, format == ParamFormat::Pairs) {
        None => None,
        Some((t, n)) => Some(
            if format == ParamFormat::Pairs {
                pair_jobs(t, n)
            } else {
                matrix_jobs(t)
            },
        ),
    }
}

proof fn lemma_key_index_range(t: Seq<EntryView>, k: Seq<char>, i: int)
    requires
        0 <= i,
    ensures
        key_index_from(t, k, i) == -1 || (i <= key_index_from(t, k, i) < t.len() && t[key_index_from(
            t,
            k,
            i,
        )].0 == k),
    decreases t.len() - i,
{
    if i < t.len() && t[i].0 != k {
        lemma_key_index_range(t, k, i + 1);
    }
}

/// Under pairs every value list of the table has the common length, and that
/// length is 0 only for an empty table.
proof fn lemma_pairs_table(defs: Seq<Seq<char>>)
    requires
        build_table(defs, true) is Some,
    ensures
        ({
            let (t, n) = build_table(defs, true)->Some_0;
            &&& forall|k: int| 0 <= k < t.len() ==> (#[trigger] t[k]).1.len() == n
            &&& (n == 0 ==> t.len() == 0)
        }),
    decreases defs.len(),
{
    if defs.len() > 0 {
        lemma_pairs_table(defs.drop_last());
        let (t0, n0) = build_table(defs.drop_last(), true)->Some_0;
        let (k, vs) = parse_def(defs.last())->Some_0;
        lemma_key_index_range(t0, k, 0);
        let (t, n) = build_table(defs, true)->Some_0;
        assert forall|j: int| 0 <= j < t.len() implies (#[trigger] t[j]).1.len() == n by {
            if key_index_from(t0, k, 0) < 0 && j == t0.len() {
            } else if j != key_index_from(t0, k, 0) {
                assert(t[j] == t0[j]);
            }
        }
    }
}

/// Expands parameter definitions `key=v1,v2,...` into one parameter mapping
/// per job: under pairs job `i` takes the `i`-th value of every parameter,
/// under matrix the jobs are the cross product of the value lists.
pub fn expand_params(params: &Vec<String>, format: ParamFormat) -> (r: Result<
    Vec<Vec<(String, String)>>,
    ParamError,
>)
    ensures
        match r {
            Ok(jobs) => {
                &&& expansion(strs(params@), format) == Some(jobs_view(jobs@))
                &&& forall|i: int|
                    0 <= i < jobs@.len() ==> (#[trigger] jobs@[i])@.len() > 0 && keys_distinct(
                        pairs_view(jobs@[i]@),
                    )
            },
            Err(e) => expansion(strs(params@), format) is None && e == ParamError::InvalidParam,
        },
{
    let (table, n) = generate_map_for_params(params, format)?;
    let ghost defs = strs(params@);
    if format == ParamFormat::Pairs {
        proof {
            lemma_pairs_table(strs(params@));
            assert forall|k: int| 0 <= k < table@.len() implies n <= (#[trigger] table@[k]).1@.len() by {
                assert(table_view(table@)[k].1.len() == n);
            }
        }
        let jobs = generate_param_pairs(&table, n);
        proof {
            lemma_jobs_well_formed(defs, format, jobs@);
        }
        Ok(jobs)
    } else {
        let jobs = generate_param_combos(&table);
        proof {
            lemma_jobs_well_formed(defs, format, jobs@);
        }
        Ok(jobs)
    }
}

proof fn lemma_jobs_well_formed(defs: Seq<Seq<char>>, format: ParamFormat, jobs: Seq<Vec<(String, String)>>)
    requires
        expansion(defs, format) == Some(jobs_view(jobs)),
    ensures
        forall|i: int|
            0 <= i < jobs.len() ==> (#[trigger] jobs[i])@.len() > 0 && keys_distinct(pairs_view(jobs[i]@)),
{
    lemma_expanded_params_well_formed(defs, format);
    assert forall|i: int| 0 <= i < jobs.len() implies (#[trigger] jobs[i])@.len() > 0 && keys_distinct(
        pairs_view(jobs[i]@),
    ) by {
        assert(jobs_view(jobs)[i] == pairs_view(jobs[i]@));
        assert(expansion(defs, format)->Some_0[i] == pairs_view(jobs[i]@));
    }
}

/// The number of combinations: the product of the value-list lengths.
pub open spec fn combination_count(t: Seq<EntryView>) -> nat
    decreases t.len(),
{
    if t.len() == 0 {
        1
    } else {
        combination_count(t.drop_last()) * t.last().1.len()
    }
}

/// `c` picks, for each parameter of `t` in order, one of its values.
pub open spec fn is_combination(c: ParamsView, t: Seq<EntryView>) -> bool {
    &&& c.len() == t.len()
    &&& forall|k: int| 0 <= k < t.len() ==> (#[trigger] c[k]).0 == t[k].0 && t[k].1.contains(c[k].1)
}

proof fn lemma_index_bounds(i: int, n: int, m: int)
    requires
        0 < n,
        0 <= i < m * n,
    ensures
        0 <= i % n < n,
        0 <= i / n < m,
{
    lemma_mod_pos_bound(i, n);
    lemma_fundamental_div_mod(i, n);
    assert(0 <= i / n < m) by (nonlinear_arith)
        requires
            i == n * (i / n) + i % n,
            0 <= i % n < n,
            0 <= i < m * n,
    ;
}

proof fn lemma_cross(t: Seq<EntryView>)
    requires
        forall|k: int| 0 <= k < t.len() ==> (#[trigger] t[k]).1.len() > 0,
    ensures
        cross(t).len() == combination_count(t),
        forall|i: int| 0 <= i < cross(t).len() ==> is_combination(#[trigger] cross(t)[i], t),
        forall|c: ParamsView| is_combination(c, t) ==> cross(t).contains(c),
        (forall|k: int| 0 <= k < t.len() ==> (#[trigger] t[k]).1.no_duplicates()) ==> cross(
            t,
        ).no_duplicates(),
    decreases t.len(),
{
    if t.len() == 0 {
        assert forall|c: ParamsView| is_combination(c, t) implies cross(t).contains(c) by {
            assert(c =~= Seq::<(Seq<char>, Seq<char>)>::empty());
            assert(cross(t)[0] == c);
        }
    } else {
        let t0 = t.drop_last();
        let e = t.last();
        let cs = cross(t0);
        assert forall|k: int| 0 <= k < t0.len() implies (#[trigger] t0[k]).1.len() > 0 by {
            assert(t0[k] == t[k]);
        }
        if forall|k: int| 0 <= k < t.len() ==> (#[trigger] t[k]).1.no_duplicates() {
            assert forall|k: int| 0 <= k < t0.len() implies (#[trigger] t0[k]).1.no_duplicates() by {
                assert(t0[k] == t[k]);
            }
        }
        lemma_cross(t0);
        let n = cs.len() as int;
        let m = e.1.len() as int;
        lemma_combination_count_positive(t0);
        assert(m * n == combination_count(t)) by (nonlinear_arith)
            requires
                m == e.1.len(),
                n == combination_count(t0),
                combination_count(t) == combination_count(t0) * e.1.len(),
        ;
        let x = cross(t);
        assert forall|i: int| 0 <= i < x.len() implies is_combination(#[trigger] x[i], t) by {
            lemma_index_bounds(i, n, m);
            let c0 = cs[i % n];
            assert(is_combination(c0, t0));
            assert(x[i] == c0.push((e.0, e.1[i / n])));
            assert forall|k: int| 0 <= k < t.len() implies (#[trigger] x[i][k]).0 == t[k].0
                && t[k].1.contains(x[i][k].1) by {
                if k < t0.len() {
                    assert(x[i][k] == c0[k]);
                    assert(t[k] == t0[k]);
                } else {
                    assert(e.1[i / n] == e.1[i / n]);
                    assert(e.1.contains(e.1[i / n]));
                }
            }
        }
        assert forall|c: ParamsView| is_combination(c, t) implies x.contains(c) by {
            let c0 = c.drop_last();
            assert(is_combination(c0, t0)) by {
                assert forall|k: int| 0 <= k < t0.len() implies (#[trigger] c0[k]).0 == t0[k].0
                    && t0[k].1.contains(c0[k].1) by {
                    assert(c0[k] == c[k]);
                    assert(t0[k] == t[k]);
                }
            }
            assert(cs.contains(c0));
            let j = choose|j: int| 0 <= j < cs.len() && cs[j] == c0;
            assert(e.1.contains(c[t.len() - 1].1));
            let v = choose|v: int| 0 <= v < e.1.len() && e.1[v] == c[t.len() - 1].1;
            lemma_index_split(v, n, j);
            assert(v * n + j < m * n) by (nonlinear_arith)
                requires
                    0 <= v < m,
                    0 <= j < n,
            ;
            assert(x[v * n + j] =~= c);
        }
        if forall|k: int| 0 <= k < t.len() ==> (#[trigger] t[k]).1.no_duplicates() {
            assert(e.1.no_duplicates());
            assert forall|i: int, i2: int|
                0 <= i < x.len() && 0 <= i2 < x.len() && i != i2 implies #[trigger] x[i]
                != #[trigger] x[i2] by {
                lemma_index_bounds(i, n, m);
                lemma_index_bounds(i2, n, m);
                lemma_fundamental_div_mod(i, n);
                lemma_fundamental_div_mod(i2, n);
                if x[i] == x[i2] {
                    assert(x[i].last() == x[i2].last());
                    assert(x[i].drop_last() =~= cs[i % n]);
                    assert(x[i2].drop_last() =~= cs[i2 % n]);
                    assert(e.1[i / n] == e.1[i2 / n]);
                    assert(i / n == i2 / n);
                    assert(i % n == i2 % n);
                }
            }
        }
    }
}

proof fn lemma_combination_count_positive(t: Seq<EntryView>)
    requires
        forall|k: int| 0 <= k < t.len() ==> (#[trigger] t[k]).1.len() > 0,
    ensures
        combination_count(t) > 0,
    decreases t.len(),
{
    if t.len() > 0 {
        let t0 = t.drop_last();
        assert forall|k: int| 0 <= k < t0.len() implies (#[trigger] t0[k]).1.len() > 0 by {
            assert(t0[k] == t[k]);
        }
        lemma_combination_count_positive(t0);
        assert(combination_count(t0) * t.last().1.len() > 0) by (nonlinear_arith)
            requires
                combination_count(t0) > 0,
                t.last().1.len() > 0,
        ;
    }
}

proof fn lemma_table_lists_nonempty(defs: Seq<Seq<char>>, pairs: bool)
    requires
        build_table(defs, pairs) is Some,
    ensures
        ({
            let t = build_table(defs, pairs)->Some_0.0;
            &&& forall|k: int| 0 <= k < t.len() ==> (#[trigger] t[k]).1.len() > 0
            &&& (defs.len() > 0 ==> t.len() > 0)
        }),
    decreases defs.len(),
{
    if defs.len() > 0 {
        lemma_table_lists_nonempty(defs.drop_last(), pairs);
        let t0 = build_table(defs.drop_last(), pairs)->Some_0.0;
        let (k, vs) = parse_def(defs.last())->Some_0;
        lemma_key_index_range(t0, k, 0);
        let t = build_table(defs, pairs)->Some_0.0;
        assert forall|j: int| 0 <= j < t.len() implies (#[trigger] t[j]).1.len() > 0 by {
            if key_index_from(t0, k, 0) < 0 && j == t0.len() {
            } else if j != key_index_from(t0, k, 0) {
                assert(t[j] == t0[j]);
            }
        }
    }
}

/// Matrix expansion of valid definitions yields every way of picking one value
/// per parameter, each exactly once, and as many jobs as the product of the
/// list lengths, provided no parameter lists the same value twice.
pub proof fn lemma_matrix_expansion(defs: Seq<Seq<char>>)
    requires
        defs.len() > 0,
        build_table(defs, false) is Some,
        forall|k: int|
            0 <= k < build_table(defs, false)->Some_0.0.len() ==> (#[trigger] build_table(
                defs,
                false,
            )->Some_0.0[k]).1.no_duplicates(),
    ensures
        ({
            let t = build_table(defs, false)->Some_0.0;
            let jobs = expansion(defs, ParamFormat::Matrix)->Some_0;
            &&& expansion(defs, ParamFormat::Matrix) is Some
            &&& jobs.len() == combination_count(t)
            &&& forall|i: int| 0 <= i < jobs.len() ==> is_combination(#[trigger] jobs[i], t)
            &&& forall|c: ParamsView| is_combination(c, t) ==> jobs.contains(c)
            &&& jobs.no_duplicates()
        }),
{
    lemma_table_lists_nonempty(defs, false);
    lemma_cross(build_table(defs, false)->Some_0.0);
}

/// A definition with nothing after its `=` makes the whole expansion fail,
/// under either format: no jobs are produced.
pub proof fn lemma_empty_value_list_rejected(defs: Seq<Seq<char>>, i: int, format: ParamFormat)
    requires
        0 <= i < defs.len(),
        parse_def(defs[i]) is Some,
        parse_def(defs[i])->Some_0.1.len() == 0,
    ensures
        expansion(defs, format) is None,
{
    let pairs = format == ParamFormat::Pairs;
    assert(defs.subrange(0, i + 1).drop_last() =~= defs.subrange(0, i));
    assert(defs.subrange(0, i + 1).last() == defs[i]);
    lemma_build_table_none_extends(defs, pairs, i + 1);
}

/// Under pairs every accepted definition has the common list length, which is positive.
proof fn lemma_pairs_lengths(defs: Seq<Seq<char>>, i: int)
    requires
        0 <= i < defs.len(),
        build_table(defs, true) is Some,
    ensures
        parse_def(defs[i]) is Some,
        parse_def(defs[i])->Some_0.1.len() == build_table(defs, true)->Some_0.1,
        build_table(defs, true)->Some_0.1 > 0,
    decreases defs.len(),
{
    let d0 = defs.drop_last();
    if i < defs.len() - 1 {
        assert(d0[i] == defs[i]);
        lemma_pairs_lengths(d0, i);
    } else if d0.len() > 0 {
        lemma_pairs_lengths(d0, 0);
    }
}

/// Under pairs, definitions whose value lists differ in length make the whole
/// expansion fail: no jobs are produced.
pub proof fn lemma_pairs_length_mismatch_rejected(defs: Seq<Seq<char>>, i: int, j: int)
    requires
        0 <= i < j < defs.len(),
        parse_def(defs[i]) is Some,
        parse_def(defs[j]) is Some,
        parse_def(defs[i])->Some_0.1.len() != parse_def(defs[j])->Some_0.1.len(),
    ensures
        expansion(defs, ParamFormat::Pairs) is None,
{
    let d = defs.subrange(0, j + 1);
    assert(d.drop_last() =~= defs.subrange(0, j));
    assert(d.last() == defs[j]);
    if build_table(defs.subrange(0, j), true) is Some {
        assert(defs.subrange(0, j)[i] == defs[i]);
        lemma_pairs_lengths(defs.subrange(0, j), i);
    }
    lemma_build_table_none_extends(defs, true, j + 1);
}

/// No two entries of a parameter mapping share a name.
pub open spec fn keys_distinct(ps: ParamsView) -> bool {
    forall|i: int, j: int| 0 <= i < j < ps.len() ==> #[trigger] ps[i].0 != #[trigger] ps[j].0
}

proof fn lemma_key_index_absent(t: Seq<EntryView>, k: Seq<char>, i: int)
    requires
        0 <= i,
        key_index_from(t, k, i) == -1,
    ensures
        forall|j: int| i <= j < t.len() ==> (#[trigger] t[j]).0 != k,
    decreases t.len() - i,
{
    if i < t.len() {
        lemma_key_index_absent(t, k, i + 1);
    }
}

proof fn lemma_table_keys_distinct(defs: Seq<Seq<char>>, pairs: bool)
    requires
        build_table(defs, pairs) is Some,
    ensures
        ({
            let t = build_table(defs, pairs)->Some_0.0;
            forall|i: int, j: int| 0 <= i < j < t.len() ==> #[trigger] t[i].0 != #[trigger] t[j].0
        }),
    decreases defs.len(),
{
    if defs.len() > 0 {
        lemma_table_keys_distinct(defs.drop_last(), pairs);
        let t0 = build_table(defs.drop_last(), pairs)->Some_0.0;
        let (k, vs) = parse_def(defs.last())->Some_0;
        lemma_key_index_range(t0, k, 0);
        let idx = key_index_from(t0, k, 0);
        if idx < 0 {
            lemma_key_index_absent(t0, k, 0);
        }
        let t = build_table(defs, pairs)->Some_0.0;
        assert forall|i: int, j: int| 0 <= i < j < t.len() implies #[trigger] t[i].0 != #[trigger] t[j].0 by {
            if idx < 0 {
                if j == t0.len() {
                    assert(t0[i] == t[i]);
                } else {
                    assert(t0[i] == t[i] && t0[j] == t[j]);
                }
            } else {
                assert(t[i].0 == t0[i].0 && t[j].0 == t0[j].0);
            }
        }
    }
}

/// Every job that expansion produces holds each parameter of the definitions
/// once: its mapping is non-empty and no two of its entries share a name.
pub proof fn lemma_expanded_params_well_formed(defs: Seq<Seq<char>>, format: ParamFormat)
    requires
        expansion(defs, format) is Some,
    ensures
        forall|i: int|
            0 <= i < expansion(defs, format)->Some_0.len() ==> (#[trigger] expansion(defs, format)->Some_0[i]).len()
                > 0 && keys_distinct(expansion(defs, format)->Some_0[i]),
{
    let pairs = format == ParamFormat::Pairs;
    let (t, n) = build_table(defs, pairs)->Some_0;
    let jobs = expansion(defs, format)->Some_0;
    lemma_table_keys_distinct(defs, pairs);
    lemma_table_lists_nonempty(defs, pairs);
    if pairs {
        lemma_pairs_table(defs);
        assert forall|i: int| 0 <= i < jobs.len() implies (#[trigger] jobs[i]).len() > 0 && keys_distinct(
            jobs[i],
        ) by {
            assert(t.len() > 0);
            assert forall|a: int, c: int| 0 <= a < c < jobs[i].len() implies #[trigger] jobs[i][a].0
                != #[trigger] jobs[i][c].0 by {
                assert(jobs[i][a].0 == t[a].0 && jobs[i][c].0 == t[c].0);
            }
        }
    } else if t.len() > 0 {
        lemma_cross(t);
        assert forall|i: int| 0 <= i < jobs.len() implies (#[trigger] jobs[i]).len() > 0 && keys_distinct(
            jobs[i],
        ) by {
            assert(is_combination(jobs[i], t));
            assert forall|a: int, c: int| 0 <= a < c < jobs[i].len() implies #[trigger] jobs[i][a].0
                != #[trigger] jobs[i][c].0 by {
                assert(jobs[i][a].0 == t[a].0);
                assert(jobs[i][c].0 == t[c].0);
            }
        }
    }
}

} // verus!
