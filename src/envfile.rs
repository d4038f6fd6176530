use vstd::prelude::*;

use crate::text::{chars_of, is_ws, trim, trim_bounds, trim_end, trim_start};

verus! {

/// One `NAME=value` entry of an environment file.
#[derive(Debug, Clone, PartialEq, Eq)]
pub struct EnvVar {
    pub name: String,
    pub value: String,
}

impl View for EnvVar {
    type V = (Seq<char>, Seq<char>);

    open spec fn view(&self) -> (Seq<char>, Seq<char>) {
        (self.name@, self.value@)
    }
}

pub open spec fn env_view(vs: Seq<EnvVar>) -> Seq<(Seq<char>, Seq<char>)> {
    vs.map_values(|v: EnvVar| v@)
}

/// Index of the first `c` in `s`, or -1 when there is none.
pub open spec fn find_char(s: Seq<char>, c: char) -> int
    decreases s.len(),
{
    if s.len() == 0 {
        -1
    } else if s[0] == c {
        0
    } else {
        let r = find_char(s.drop_first(), c);
        if r < 0 {
            -1
        } else {
            r + 1
        }
    }
}

pub proof fn lemma_find_char(s: Seq<char>, c: char, k: int)
    requires
        0 <= k <= s.len(),
        forall|j: int| 0 <= j < k ==> #[trigger] s[j] != c,
        k < s.len() ==> s[k] == c,
    ensures
        find_char(s, c) == if k < s.len() {
            k
        } else {
            -1
        },
    decreases k,
{
    if k > 0 {
        let t = s.drop_first();
        assert forall|j: int| 0 <= j < k - 1 implies #[trigger] t[j] != c by {
            assert(t[j] == s[j + 1]);
        }
        assert(s[0] != c);
        lemma_find_char(t, c, k - 1);
    }
}

/// The text split at every newline: `n` newlines give `n + 1` pieces.
pub open spec fn split_lines(s: Seq<char>) -> Seq<Seq<char>>
    decreases s.len(),
{
    if s.len() == 0 {
        seq![Seq::<char>::empty()]
    } else {
        let p = split_lines(s.drop_last());
        if s.last() == '\n' {
            p.push(Seq::<char>::empty())
        } else {
            p.update(p.len() - 1, p.last().push(s.last()))
        }
    }
}

/// The entry that one line holds, if any: blank lines, comments and lines
/// without `=` hold none.
pub open spec fn parse_env_line(line: Seq<char>) -> Option<(Seq<char>, Seq<char>)> {
    let t = trim(line);
    let k = find_char(line, '=');
    if t.len() == 0 || t[0] == '#' || k < 0 {
        None
    } else {
        Some((trim(line.subrange(0, k)), trim(line.subrange(k + 1, line.len() as int))))
    }
}

pub open spec fn parse_env_lines(ls: Seq<Seq<char>>) -> Seq<(Seq<char>, Seq<char>)>
    decreases ls.len(),
{
    if ls.len() == 0 {
        seq![]
    } else {
        let p = parse_env_lines(ls.drop_last());
        match parse_env_line(ls.last()) {
            Some(e) => p.push(e),
            None => p,
        }
    }
}

/// The entries of an environment file, in the order of their lines.
pub open spec fn parse_env(s: Seq<char>) -> Seq<(Seq<char>, Seq<char>)> {
    parse_env_lines(split_lines(s))
}

pub open spec fn env_line(e: (Seq<char>, Seq<char>)) -> Seq<char> {
    e.0 + seq!['='] + e.1
}

/// The entries written one per line, joined by newlines, with no newline at the end.
pub open spec fn serialize_env(es: Seq<(Seq<char>, Seq<char>)>) -> Seq<char>
    decreases es.len(),
{
    if es.len() == 0 {
        Seq::<char>::empty()
    } else if es.len() == 1 {
        env_line(es[0])
    } else {
        serialize_env(es.drop_last()) + seq!['\n'] + env_line(es.last())
    }
}

/// Parses one line `cs[from..to]`.
fn parse_line_at(s: &str, cs: &Vec<char>, from: usize, to: usize) -> (r: Option<EnvVar>)
    requires
        cs@ == s@,
        from <= to <= cs.len(),
    ensures
        match r {
            Some(v) => parse_env_line(cs@.subrange(from as int, to as int)) == Some(v@),
            None => parse_env_line(cs@.subrange(from as int, to as int)) is None,
        },
{
    let ghost line = cs@.subrange(from as int, to as int);
    let (a, b) = trim_bounds(cs, from, to);
    if a == b || cs[a] == '#' {
        assert(trim(line).len() == 0 || trim(line)[0] == '#');
        return None;
    }
    let mut k: usize = from;
    while k < to && cs[k] != '='
        invariant
            from <= k <= to <= cs.len(),
            forall|j: int| from <= j < k ==> #[trigger] cs@[j] != '=',
        decreases to - k,
    {
        k = k + 1;
    }
    proof {
        assert forall|j: int| 0 <= j < k - from implies #[trigger] line[j] != '=' by {
            assert(line[j] == cs@[j + from]);
        }
        lemma_find_char(line, '=', k - from);
    }
    if k == to {
        return None;
    }
    let (na, nb) = trim_bounds(cs, from, k);
    let (va, vb) = trim_bounds(cs, k + 1, to);
    proof {
        assert(line.subrange(0, k - from) =~= cs@.subrange(from as int, k as int));
        assert(line.subrange(k - from + 1, line.len() as int) =~= cs@.subrange(k + 1, to as int));
    }
    let name = s.substring_char(na, nb).to_string();
    let value = s.substring_char(va, vb).to_string();
    Some(EnvVar { name, value })
}

/// Reads the entries of an environment file: one `NAME=value` per line,
/// split at the first `=`, both sides trimmed; blank lines, lines whose
/// first visible character is `#` and lines without `=` are skipped.
pub fn parse_env_str(content: &str) -> (vars: Vec<EnvVar>)
    ensures
        env_view(vars@) == parse_env(content@),
{
    let cs = chars_of(content);
    let n = cs.len();
    let mut vars: Vec<EnvVar> = Vec::new();
    let mut start: usize = 0;
    let mut i: usize = 0;
    let ghost mut done: Seq<Seq<char>> = seq![];
    proof {
        let e = cs@.subrange(0, 0);
        assert(e =~= Seq::<char>::empty());
        assert(split_lines(e) == seq![Seq::<char>::empty()]);
        assert(done.push(e) =~= seq![Seq::<char>::empty()]);
    }
    while i < n
        invariant
            cs@ == content@,
            n == cs.len(),
            start <= i <= n,
            split_lines(cs@.subrange(0, i as int)) == done.push(cs@.subrange(start as int, i as int)),
            env_view(vars@) == parse_env_lines(done),
        decreases n - i,
    {
        let ghost pre = cs@.subrange(0, i as int);
        assert(cs@.subrange(0, i + 1).drop_last() =~= pre);
        assert(cs@.subrange(0, i + 1).last() == cs@[i as int]);
        if cs[i] == '\n' {
            let r = parse_line_at(content, &cs, start, i);
            proof {
                let d2 = done.push(cs@.subrange(start as int, i as int));
                assert(d2.drop_last() =~= done);
                assert(cs@.subrange(start as int, (i + 1) as int).drop_last() =~= cs@.subrange(start as int, i as int));
            }
            let ghost old_vars = vars@;
            match r {
                Some(v) => {
                    vars.push(v);
                    assert(env_view(vars@) =~= env_view(old_vars).push(v@));
                },
                None => {},
            }
            proof {
                done = done.push(cs@.subrange(start as int, i as int));
                assert(cs@.subrange((i + 1) as int, (i + 1) as int) =~= Seq::<char>::empty());
            }
            start = i + 1;
        } else {
            proof {
                assert(cs@.subrange(start as int, (i + 1) as int) =~= cs@.subrange(start as int, i as int).push(cs@[i as int]));
                let d = done.push(cs@.subrange(start as int, i as int));
                assert(d.update(d.len() - 1, d.last().push(cs@[i as int])) =~= done.push(cs@.subrange(start as int, (i + 1) as int)));
            }
        }
        i = i + 1;
    }
    let r = parse_line_at(content, &cs, start, n);
    proof {
        assert(cs@.subrange(0, n as int) =~= content@);
        let d = done.push(cs@.subrange(start as int, n as int));
        assert(d.drop_last() =~= done);
    }
    let ghost old_vars = vars@;
    match r {
        Some(v) => {
            vars.push(v);
            assert(env_view(vars@) =~= env_view(old_vars).push(v@));
        },
        None => {},
    }
    vars
}

/// The text of an environment file holding `vars`: `name=value` lines
/// joined by newlines.
pub fn serialize_env_vars(vars: &Vec<EnvVar>) -> (r: String)
    ensures
        r@ == serialize_env(env_view(vars@)),
{
    let mut r = String::new();
    let mut i: usize = 0;
    while i < vars.len()
        invariant
            i <= vars.len(),
            r@ == serialize_env(env_view(vars@.subrange(0, i as int))),
        decreases vars.len() - i,
    {
        let ghost pre = env_view(vars@.subrange(0, i as int));
        let ghost cur = env_view(vars@.subrange(0, i + 1));
        assert(cur.drop_last() =~= pre);
        assert(cur.last() == vars@[i as int]@);
        if i > 0 {
            r.append("\n");
        }
        r.append(vars[i].name.as_str());
        r.append("=");
        r.append(vars[i].value.as_str());
        proof {
            reveal_strlit("\n");
            reveal_strlit("=");
            if i == 0 {
                assert(cur.len() == 1);
                assert(r@ =~= env_line(cur[0]));
            } else {
                assert(r@ =~= serialize_env(pre) + seq!['\n'] + env_line(cur.last()));
            }
        }
        i = i + 1;
    }
    assert(vars@.subrange(0, vars.len() as int) =~= vars@);
    r
}

/// An entry that survives being written and read back: a name that is not
/// empty, holds no `=` or newline, and neither starts with `#` nor starts or
/// ends with whitespace; a value without newlines that neither starts nor
/// ends with whitespace.
pub open spec fn plain_entry(e: (Seq<char>, Seq<char>)) -> bool {
    &&& e.0.len() > 0
    &&& e.0[0] != '#'
    &&& !is_ws(e.0[0])
    &&& !is_ws(e.0.last())
    &&& forall|i: int| 0 <= i < e.0.len() ==> #[trigger] e.0[i] != '=' && e.0[i] != '\n'
    &&& e.1.len() > 0 ==> !is_ws(e.1[0]) && !is_ws(e.1.last())
    &&& forall|i: int| 0 <= i < e.1.len() ==> #[trigger] e.1[i] != '\n'
}

proof fn lemma_split_one_line(y: Seq<char>)
    requires
        forall|i: int| 0 <= i < y.len() ==> #[trigger] y[i] != '\n',
    ensures
        split_lines(y) == seq![y],
    decreases y.len(),
{
    if y.len() > 0 {
        let t = y.drop_last();
        assert forall|i: int| 0 <= i < t.len() implies #[trigger] t[i] != '\n' by {
            assert(t[i] == y[i]);
        }
        lemma_split_one_line(t);
        assert(t.push(y.last()) =~= y);
        assert(seq![t].update(0, t.push(y.last())) =~= seq![y]);
    } else {
        assert(y =~= Seq::<char>::empty());
    }
}

proof fn lemma_split_after_newline(x: Seq<char>, y: Seq<char>)
    requires
        forall|i: int| 0 <= i < y.len() ==> #[trigger] y[i] != '\n',
    ensures
        split_lines(x + seq!['\n'] + y) == split_lines(x).push(y),
    decreases y.len(),
{
    let s = x + seq!['\n'] + y;
    if y.len() == 0 {
        assert(s.drop_last() =~= x);
        assert(y =~= Seq::<char>::empty());
    } else {
        let t = y.drop_last();
        assert forall|i: int| 0 <= i < t.len() implies #[trigger] t[i] != '\n' by {
            assert(t[i] == y[i]);
        }
        lemma_split_after_newline(x, t);
        assert(s.drop_last() =~= x + seq!['\n'] + t);
        assert(s.last() == y.last());
        let p = split_lines(x).push(t);
        assert(t.push(y.last()) =~= y);
        assert(p.last() == t);
        assert(p.update(p.len() - 1, p.last().push(y.last())) =~= split_lines(x).push(y));
    }
}

proof fn lemma_trim_plain(s: Seq<char>)
    requires
        s.len() > 0 ==> !is_ws(s[0]) && !is_ws(s.last()),
    ensures
        trim(s) == s,
{
    if s.len() == 0 {
        assert(trim_start(s) == s);
        assert(trim_end(s) == s);
    } else {
        assert(trim_start(s) == s);
        assert(trim_end(s) == s);
    }
}

proof fn lemma_parse_plain_line(e: (Seq<char>, Seq<char>))
    requires
        plain_entry(e),
    ensures
        parse_env_line(env_line(e)) == Some(e),
        forall|i: int| 0 <= i < env_line(e).len() ==> #[trigger] env_line(e)[i] != '\n',
{
    let line = env_line(e);
    let k = e.0.len() as int;
    assert(!is_ws('='));
    assert(line[0] == e.0[0]);
    if e.1.len() > 0 {
        assert(line.last() == e.1.last());
    } else {
        assert(line.last() == '=');
    }
    lemma_trim_plain(line);
    assert forall|j: int| 0 <= j < k implies #[trigger] line[j] != '=' by {
        assert(line[j] == e.0[j]);
    }
    assert(line[k] == '=');
    lemma_find_char(line, '=', k);
    assert(line.subrange(0, k) =~= e.0);
    assert(line.subrange(k + 1, line.len() as int) =~= e.1);
    lemma_trim_plain(e.0);
    lemma_trim_plain(e.1);
    assert forall|i: int| 0 <= i < line.len() implies #[trigger] line[i] != '\n' by {
        if i < k {
            assert(line[i] == e.0[i]);
        } else if i > k {
            assert(line[i] == e.1[i - k - 1]);
        }
    }
}

proof fn lemma_split_serialized(es: Seq<(Seq<char>, Seq<char>)>)
    requires
        es.len() > 0,
        forall|i: int| 0 <= i < es.len() ==> plain_entry(#[trigger] es[i]),
    ensures
        split_lines(serialize_env(es)) == es.map_values(|e: (Seq<char>, Seq<char>)| env_line(e)),
    decreases es.len(),
{
    lemma_parse_plain_line(es.last());
    if es.len() == 1 {
        lemma_split_one_line(env_line(es[0]));
        assert(es.map_values(|e: (Seq<char>, Seq<char>)| env_line(e)) =~= seq![env_line(es[0])]);
    } else {
        let t = es.drop_last();
        assert forall|i: int| 0 <= i < t.len() implies plain_entry(#[trigger] t[i]) by {
            assert(t[i] == es[i]);
        }
        lemma_split_serialized(t);
        lemma_split_after_newline(serialize_env(t), env_line(es.last()));
        assert(es.map_values(|e: (Seq<char>, Seq<char>)| env_line(e)) =~= t.map_values(
            |e: (Seq<char>, Seq<char>)| env_line(e),
        ).push(env_line(es.last())));
    }
}

proof fn lemma_parse_plain_lines(es: Seq<(Seq<char>, Seq<char>)>)
    requires
        forall|i: int| 0 <= i < es.len() ==> plain_entry(#[trigger] es[i]),
    ensures
        parse_env_lines(es.map_values(|e: (Seq<char>, Seq<char>)| env_line(e))) == es,
    decreases es.len(),
{
    if es.len() > 0 {
        let t = es.drop_last();
        assert forall|i: int| 0 <= i < t.len() implies plain_entry(#[trigger] t[i]) by {
            assert(t[i] == es[i]);
        }
        lemma_parse_plain_lines(t);
        lemma_parse_plain_line(es.last());
        let ls = es.map_values(|e: (Seq<char>, Seq<char>)| env_line(e));
        assert(ls.drop_last() =~= t.map_values(|e: (Seq<char>, Seq<char>)| env_line(e)));
        assert(t.push(es.last()) =~= es);
    } else {
        assert(es.map_values(|e: (Seq<char>, Seq<char>)| env_line(e)) =~= Seq::<Seq<char>>::empty());
    }
}

/// Writing entries and reading them back gives the same entries, in order,
/// when every entry is plain.
pub proof fn lemma_env_round_trip(es: Seq<(Seq<char>, Seq<char>)>)
    requires
        forall|i: int| 0 <= i < es.len() ==> plain_entry(#[trigger] es[i]),
    ensures
        parse_env(serialize_env(es)) == es,
{
    if es.len() == 0 {
        let e = Seq::<char>::empty();
        assert(split_lines(e) == seq![e]);
        assert(trim(e).len() == 0) by {
            lemma_trim_plain(e);
        }
        assert(seq![e].drop_last() =~= Seq::<Seq<char>>::empty());
        assert(serialize_env(es) == e);
        assert(parse_env_line(e) is None);
        assert(parse_env_lines(seq![e]) == parse_env_lines(Seq::<Seq<char>>::empty()));
        assert(es =~= Seq::<(Seq<char>, Seq<char>)>::empty());
    } else {
        lemma_split_serialized(es);
        lemma_parse_plain_lines(es);
    }
}

/// Writing `vars` with `serialize_env_vars` and reading the text back with
/// `parse_env_str` gives the same names and values, in order, when every
/// entry is plain.
pub proof fn lemma_env_vars_round_trip(vars: Seq<EnvVar>)
    requires
        forall|i: int| 0 <= i < vars.len() ==> plain_entry(#[trigger] vars[i]@),
    ensures
        parse_env(serialize_env(env_view(vars))) == env_view(vars),
{
    assert forall|i: int| 0 <= i < env_view(vars).len() implies plain_entry(
        #[trigger] env_view(vars)[i],
    ) by {
        assert(env_view(vars)[i] == vars[i]@);
    }
    lemma_env_round_trip(env_view(vars));
}

} // verus!
