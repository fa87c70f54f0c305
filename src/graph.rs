use vstd::prelude::*;

verus! {

/// ASCII whitespace as `char::is_whitespace` sees it: tab, line feed,
/// vertical tab, form feed, carriage return and space.
pub open spec fn is_space(b: u8) -> bool {
    b == 32 || (9 <= b && b <= 13)
}

pub open spec fn is_digit(b: u8) -> bool {
    48 <= b && b <= 57
}

/// Splitting at line feeds, read left to right: the finished lines and the
/// line still open.
pub open spec fn line_split(s: Seq<u8>) -> (Seq<Seq<u8>>, Seq<u8>)
    decreases s.len(),
{
    if s.len() == 0 {
        (seq![], seq![])
    } else {
        let (done, cur) = line_split(s.drop_last());
        if s.last() == 10 {
            (done.push(cur), seq![])
        } else {
            (done, cur.push(s.last()))
        }
    }
}

/// The lines of a text, without their line feeds; the part after the last
/// line feed is a line too (empty when the text ends with one).
pub open spec fn lines(s: Seq<u8>) -> Seq<Seq<u8>> {
    line_split(s).0.push(line_split(s).1)
}

/// Splitting at whitespace, read left to right: the finished words and the
/// word still open.
pub open spec fn word_split(s: Seq<u8>) -> (Seq<Seq<u8>>, Seq<u8>)
    decreases s.len(),
{
    if s.len() == 0 {
        (seq![], seq![])
    } else {
        let (done, cur) = word_split(s.drop_last());
        if is_space(s.last()) {
            if cur.len() > 0 {
                (done.push(cur), seq![])
            } else {
                (done, cur)
            }
        } else {
            (done, cur.push(s.last()))
        }
    }
}

/// The maximal runs of non-whitespace bytes, in order.
pub open spec fn words(s: Seq<u8>) -> Seq<Seq<u8>> {
    if word_split(s).1.len() > 0 {
        word_split(s).0.push(word_split(s).1)
    } else {
        word_split(s).0
    }
}

/// The pieces of `text` that a list of ranges marks out.
pub open spec fn pieces(text: Seq<u8>, rs: Seq<(usize, usize)>) -> Seq<Seq<u8>> {
    rs.map_values(|p: (usize, usize)| text.subrange(p.0 as int, p.1 as int))
}

pub open spec fn ranges_within(rs: Seq<(usize, usize)>, lo: int, hi: int) -> bool {
    forall|k: int| 0 <= k < rs.len() ==> lo <= #[trigger] rs[k].0 <= rs[k].1 <= hi
}

/// The ranges of the lines of `text`.
fn line_ranges(text: &Vec<u8>) -> (rs: Vec<(usize, usize)>)
    ensures
        ranges_within(rs@, 0, text@.len() as int),
        pieces(text@, rs@) == lines(text@),
{
    let mut rs: Vec<(usize, usize)> = Vec::new();
    let mut start: usize = 0;
    let mut i: usize = 0;
    while i < text.len()
        invariant
            start <= i <= text@.len(),
            ranges_within(rs@, 0, start as int),
            line_split(text@.take(i as int)) == (pieces(text@, rs@), text@.subrange(
                start as int,
                i as int,
            )),
        decreases text@.len() - i,
    {
        let ghost before = text@.take(i as int);
        assert(text@.take(i + 1).drop_last() =~= before);
        if text[i] == 10 {
            rs.push((start, i));
            assert(pieces(text@, rs@) =~= pieces(text@, rs@.drop_last()).push(
                text@.subrange(start as int, i as int),
            ));
            start = i + 1;
            assert(text@.subrange(start as int, i + 1) =~= seq![]);
        } else {
            assert(text@.subrange(start as int, i + 1) =~= text@.subrange(
                start as int,
                i as int,
            ).push(text@[i as int]));
        }
        i = i + 1;
    }
    assert(text@.take(i as int) =~= text@);
    rs.push((start, i));
    assert(pieces(text@, rs@) =~= pieces(text@, rs@.drop_last()).push(
        text@.subrange(start as int, i as int),
    ));
    rs
}

/// The ranges of the words of `text[a..b]`.
fn word_ranges(text: &Vec<u8>, a: usize, b: usize) -> (rs: Vec<(usize, usize)>)
    requires
        a <= b <= text@.len(),
    ensures
        ranges_within(rs@, a as int, b as int),
        pieces(text@, rs@) == words(text@.subrange(a as int, b as int)),
{
    let mut rs: Vec<(usize, usize)> = Vec::new();
    let mut start: usize = a;
    let mut i: usize = a;
    while i < b
        invariant
            a <= start <= i <= b <= text@.len(),
            ranges_within(rs@, a as int, start as int),
            word_split(text@.subrange(a as int, i as int)) == (pieces(text@, rs@), text@.subrange(
                start as int,
                i as int,
            )),
        decreases b - i,
    {
        assert(text@.subrange(a as int, i + 1).drop_last() =~= text@.subrange(a as int, i as int));
        let c = text[i];
        if c == 32 || (9 <= c && c <= 13) {
            if start < i {
                rs.push((start, i));
                assert(pieces(text@, rs@) =~= pieces(text@, rs@.drop_last()).push(
                    text@.subrange(start as int, i as int),
                ));
            }
            start = i + 1;
            assert(text@.subrange(start as int, i + 1) =~= seq![]);
        } else {
            assert(text@.subrange(start as int, i + 1) =~= text@.subrange(
                start as int,
                i as int,
            ).push(text@[i as int]));
        }
        i = i + 1;
    }
    if start < b {
        rs.push((start, b));
        assert(pieces(text@, rs@) =~= pieces(text@, rs@.drop_last()).push(
            text@.subrange(start as int, b as int),
        ));
    }
    rs
}

/// A leading `+` is dropped, as the standard parser of unsigned integers does.
pub open spec fn skip_plus(t: Seq<u8>) -> Seq<u8> {
    if t.len() > 0 && t[0] == 43 {
        t.skip(1)
    } else {
        t
    }
}

pub open spec fn all_digits(t: Seq<u8>) -> bool {
    forall|k: int| 0 <= k < t.len() ==> is_digit(#[trigger] t[k])
}

/// The number that a string of decimal digits denotes.
pub open spec fn digits_value(t: Seq<u8>) -> nat
    decreases t.len(),
{
    if t.len() == 0 {
        0
    } else {
        digits_value(t.drop_last()) * 10 + (t.last() - 48) as nat
    }
}

/// The vertex number that a field denotes: an optional `+`, then one or more
/// decimal digits, whose value fits in `usize`.
pub open spec fn index_value(t: Seq<u8>) -> Option<nat> {
    let d = skip_plus(t);
    if d.len() > 0 && all_digits(d) && digits_value(d) <= usize::MAX {
        Some(digits_value(d))
    } else {
        None
    }
}

/// The length of the run of digits that `s` starts with.
pub open spec fn digit_run(s: Seq<u8>) -> nat
    decreases s.len(),
{
    if s.len() > 0 && is_digit(s[0]) {
        1 + digit_run(s.skip(1))
    } else {
        0
    }
}

/// An optional `+` or `-` is dropped.
pub open spec fn skip_sign(s: Seq<u8>) -> Seq<u8> {
    if s.len() > 0 && (s[0] == 43 || s[0] == 45) {
        s.skip(1)
    } else {
        s
    }
}

/// Empty, or `e` / `E`, an optional sign and one or more digits.
pub open spec fn exponent_part(s: Seq<u8>) -> bool {
    s.len() == 0 || ((s[0] == 101 || s[0] == 69) && skip_sign(s.skip(1)).len() > 0 && digit_run(
        skip_sign(s.skip(1)),
    ) == skip_sign(s.skip(1)).len())
}

/// Digits with an optional decimal point, at least one digit in all, then
/// an optional exponent.
pub open spec fn unsigned_decimal(s: Seq<u8>) -> bool {
    let a = digit_run(s);
    let r = s.skip(a as int);
    if r.len() > 0 && r[0] == 46 {
        let b = digit_run(r.skip(1));
        a + b >= 1 && exponent_part(r.skip(1).skip(b as int))
    } else {
        a >= 1 && exponent_part(r)
    }
}

/// A weight field: a finite decimal number with an optional sign, such as
/// `2.5`, `-1`, `.5`, `3.` or `1e-3`.
pub open spec fn decimal_number(t: Seq<u8>) -> bool {
    unsigned_decimal(skip_sign(t))
}

fn parse_index(text: &Vec<u8>, a: usize, b: usize) -> (r: Option<usize>)
    requires
        a <= b <= text@.len(),
    ensures
        match index_value(text@.subrange(a as int, b as int)) {
            Some(v) => r == Some(v as usize),
            None => r is None,
        },
{
    let ghost t = text@.subrange(a as int, b as int);
    let mut p: usize = a;
    if a < b && text[a] == 43 {
        p = a + 1;
    }
    assert(skip_plus(t) =~= text@.subrange(p as int, b as int));
    if p == b {
        return None;
    }
    let mut v: usize = 0;
    let mut over = false;
    let mut i: usize = p;
    while i < b
        invariant
            p <= i <= b <= text@.len(),
            t == text@.subrange(a as int, b as int),
            skip_plus(t) == text@.subrange(p as int, b as int),
            all_digits(text@.subrange(p as int, i as int)),
            over ==> digits_value(text@.subrange(p as int, i as int)) > usize::MAX,
            !over ==> v == digits_value(text@.subrange(p as int, i as int)),
        decreases b - i,
    {
        let c = text[i];
        if c < 48 || c > 57 {
            assert(!is_digit(skip_plus(t)[i - p]));
            return None;
        }
        let ghost pre = text@.subrange(p as int, i as int);
        let ghost next = text@.subrange(p as int, i + 1);
        assert(next.drop_last() =~= pre);
        assert(next.last() == c);
        let d: usize = (c - 48) as usize;
        if !over {
            if v > (usize::MAX - d) / 10 {
                assert(v * 10 + d > usize::MAX) by (nonlinear_arith)
                    requires
                        v > (usize::MAX - d) / 10,
                        d <= 9,
                ;
                over = true;
            } else {
                assert(v * 10 + d <= usize::MAX) by (nonlinear_arith)
                    requires
                        v <= (usize::MAX - d) / 10,
                        d <= 9,
                ;
                v = v * 10 + d;
            }
        } else {
            assert(digits_value(next) > usize::MAX) by (nonlinear_arith)
                requires
                    digits_value(next) == digits_value(pre) * 10 + d,
                    digits_value(pre) > usize::MAX,
            ;
        }
        assert forall|k: int| 0 <= k < next.len() implies is_digit(#[trigger] next[k]) by {
            if k < pre.len() {
                assert(next[k] == pre[k]);
            }
        }
        i = i + 1;
    }
    if over {
        None
    } else {
        Some(v)
    }
}

/// `text[i..b]` with an optional leading `+` or `-` dropped starts at `r`.
fn skip_sign_at(text: &Vec<u8>, i: usize, b: usize) -> (r: usize)
    requires
        i <= b <= text@.len(),
    ensures
        i <= r <= b,
        text@.subrange(r as int, b as int) == skip_sign(text@.subrange(i as int, b as int)),
{
    if i < b && (text[i] == 43 || text[i] == 45) {
        assert(text@.subrange(i as int, b as int).skip(1) =~= text@.subrange(i + 1, b as int));
        i + 1
    } else {
        i
    }
}

/// The end of the run of digits that starts at `i`.
fn digit_end(text: &Vec<u8>, i: usize, b: usize) -> (e: usize)
    requires
        i <= b <= text@.len(),
    ensures
        i <= e <= b,
        e - i == digit_run(text@.subrange(i as int, b as int)),
        text@.subrange(i as int, b as int).skip(e - i) == text@.subrange(e as int, b as int),
{
    let mut j: usize = i;
    while j < b && 48 <= text[j] && text[j] <= 57
        invariant
            i <= j <= b <= text@.len(),
            digit_run(text@.subrange(i as int, b as int)) == (j - i) + digit_run(
                text@.subrange(j as int, b as int),
            ),
        decreases b - j,
    {
        assert(text@.subrange(j as int, b as int).skip(1) =~= text@.subrange(j + 1, b as int));
        j = j + 1;
    }
    assert(text@.subrange(i as int, b as int).skip(j - i) =~= text@.subrange(j as int, b as int));
    j
}

fn exponent_at(text: &Vec<u8>, i: usize, b: usize) -> (r: bool)
    requires
        i <= b <= text@.len(),
    ensures
        r == exponent_part(text@.subrange(i as int, b as int)),
{
    if i == b {
        return true;
    }
    if text[i] != 101 && text[i] != 69 {
        return false;
    }
    assert(text@.subrange(i as int, b as int).skip(1) =~= text@.subrange(i + 1, b as int));
    let s = skip_sign_at(text, i + 1, b);
    if s == b {
        return false;
    }
    digit_end(text, s, b) == b
}

/// Whether `text[a..b]` is a weight field (see `decimal_number`).
fn decimal_at(text: &Vec<u8>, a: usize, b: usize) -> (r: bool)
    requires
        a <= b <= text@.len(),
    ensures
        r == decimal_number(text@.subrange(a as int, b as int)),
{
    let p = skip_sign_at(text, a, b);
    let e1 = digit_end(text, p, b);
    if e1 < b && text[e1] == 46 {
        let q = e1 + 1;
        assert(text@.subrange(e1 as int, b as int).skip(1) =~= text@.subrange(q as int, b as int));
        let e2 = digit_end(text, q, b);
        e2 - q + (e1 - p) >= 1 && exponent_at(text, e2, b)
    } else {
        e1 > p && exponent_at(text, e1, b)
    }
}

/// One edge line of a graph file, with its endpoints already shifted to
/// 0-based vertex numbers.
#[derive(Clone, Debug)]
pub struct Edge {
    pub u: usize,
    pub v: usize,
    /// The weight field as written (a decimal number), or `None` where the
    /// line has no weight field and the weight is 1.
    pub weight: Option<Vec<u8>>,
}

impl View for Edge {
    type V = (nat, nat, Option<Seq<u8>>);

    open spec fn view(&self) -> (nat, nat, Option<Seq<u8>>) {
        (
            self.u as nat,
            self.v as nat,
            match self.weight {
                Some(w) => Some(w@),
                None => None,
            },
        )
    }
}

/// A graph file read into its vertex count and its edge lines.
#[derive(Clone, Debug)]
pub struct GraphInput {
    pub n: usize,
    pub edges: Vec<Edge>,
}

impl GraphInput {
    /// Every endpoint is a vertex of the graph.
    pub open spec fn wf(&self) -> bool {
        forall|k: int|
            0 <= k < self.edges@.len() ==> #[trigger] self.edges@[k].u < self.n
                && self.edges@[k].v < self.n
    }

    pub open spec fn edge_views(&self) -> Seq<(nat, nat, Option<Seq<u8>>)> {
        self.edges@.map_values(|e: Edge| e@)
    }
}

#[derive(Clone, Copy, Debug, PartialEq, Eq)]
pub enum GraphError {
    /// The first line does not hold exactly one vertex count.
    BadVertexCount,
}

/// What one line after the first contributes: a line of two fields `i j`
/// or three fields `i j w` whose endpoints, less `corr`, are vertices below
/// `n`, and whose weight field (if any) is a decimal number. Any other
/// line contributes nothing.
pub open spec fn line_edge(line: Seq<u8>, n: nat, corr: nat) -> Option<(nat, nat, Option<Seq<u8>>)> {
    let ws = words(line);
    if ws.len() == 2 || ws.len() == 3 {
        match (index_value(ws[0]), index_value(ws[1])) {
            (Some(i), Some(j)) => {
                if corr <= i && corr <= j && i - corr < n && j - corr < n && (ws.len() == 2
                    || decimal_number(ws[2])) {
                    Some(
                        (
                            (i - corr) as nat,
                            (j - corr) as nat,
                            if ws.len() == 3 {
                                Some(ws[2])
                            } else {
                                None
                            },
                        ),
                    )
                } else {
                    None
                }
            },
            _ => None,
        }
    } else {
        None
    }
}

/// The edges that a run of lines contributes, in order.
pub open spec fn edges_of(ls: Seq<Seq<u8>>, n: nat, corr: nat) -> Seq<(nat, nat, Option<Seq<u8>>)>
    decreases ls.len(),
{
    if ls.len() == 0 {
        seq![]
    } else {
        match line_edge(ls.last(), n, corr) {
            Some(e) => edges_of(ls.drop_last(), n, corr).push(e),
            None => edges_of(ls.drop_last(), n, corr),
        }
    }
}

/// The vertex count on the first line: its only field, an unsigned integer.
pub open spec fn vertex_count(text: Seq<u8>) -> Option<nat> {
    let ws = words(lines(text)[0]);
    if ws.len() == 1 {
        index_value(ws[0])
    } else {
        None
    }
}

fn copy_range(text: &Vec<u8>, a: usize, b: usize) -> (r: Vec<u8>)
    requires
        a <= b <= text@.len(),
    ensures
        r@ == text@.subrange(a as int, b as int),
{
    let mut r: Vec<u8> = Vec::new();
    let mut i: usize = a;
    while i < b
        invariant
            a <= i <= b <= text@.len(),
            r@ == text@.subrange(a as int, i as int),
        decreases b - i,
    {
        r.push(text[i]);
        assert(r@ =~= text@.subrange(a as int, i + 1));
        i = i + 1;
    }
    r
}

fn read_edge_line(text: &Vec<u8>, a: usize, b: usize, n: usize, corr: usize) -> (r: Option<Edge>)
    requires
        a <= b <= text@.len(),
    ensures
        match line_edge(text@.subrange(a as int, b as int), n as nat, corr as nat) {
            Some(e) => r is Some && r->Some_0@ == e,
            None => r is None,
        },
{
    let ws = word_ranges(text, a, b);
    let ghost w = words(text@.subrange(a as int, b as int));
    if ws.len() != 2 && ws.len() != 3 {
        return None;
    }
    assert(w[0] == text@.subrange(ws[0].0 as int, ws[0].1 as int));
    assert(w[1] == text@.subrange(ws[1].0 as int, ws[1].1 as int));
    let i = match parse_index(text, ws[0].0, ws[0].1) {
        Some(i) => i,
        None => {
            return None;
        },
    };
    let j = match parse_index(text, ws[1].0, ws[1].1) {
        Some(j) => j,
        None => {
            return None;
        },
    };
    if i < corr || j < corr || i - corr >= n || j - corr >= n {
        return None;
    }
    let weight = if ws.len() == 3 {
        assert(w[2] == text@.subrange(ws[2].0 as int, ws[2].1 as int));
        if !decimal_at(text, ws[2].0, ws[2].1) {
            return None;
        }
        Some(copy_range(text, ws[2].0, ws[2].1))
    } else {
        None
    };
    Some(Edge { u: i - corr, v: j - corr, weight })
}

/// Reads a graph file: the first line holds the vertex count n; each
/// further line `i j w` or `i j` is an edge between vertices
/// `i - index_correction` and `j - index_correction` of weight w (1 where
/// the field is missing). Lines of any other shape, with fields that do not
/// parse, or with an endpoint outside `0..n` after the correction, are
/// skipped.
pub fn parse_graph(text: &Vec<u8>, index_correction: usize) -> (r: Result<GraphInput, GraphError>)
    ensures
        match vertex_count(text@) {
            None => r == Err::<GraphInput, GraphError>(GraphError::BadVertexCount),
            Some(n) => r is Ok && r->Ok_0.n == n && r->Ok_0.wf() && r->Ok_0.edge_views()
                == edges_of(lines(text@).skip(1), n, index_correction as nat),
        },
{
    let rs = line_ranges(text);
    let ghost ls = lines(text@);
    assert(pieces(text@, rs@).len() == rs@.len());
    assert(ls[0] == text@.subrange(rs[0].0 as int, rs[0].1 as int));
    let hw = word_ranges(text, rs[0].0, rs[0].1);
    if hw.len() != 1 {
        return Err(GraphError::BadVertexCount);
    }
    assert(words(ls[0])[0] == text@.subrange(hw[0].0 as int, hw[0].1 as int));
    let n = match parse_index(text, hw[0].0, hw[0].1) {
        Some(n) => n,
        None => {
            return Err(GraphError::BadVertexCount);
        },
    };
    let mut edges: Vec<Edge> = Vec::new();
    let mut k: usize = 1;
    while k < rs.len()
        invariant
            1 <= k <= rs@.len(),
            ls == lines(text@),
            ls.len() == rs@.len(),
            pieces(text@, rs@) == ls,
            ranges_within(rs@, 0, text@.len() as int),
            edges@.map_values(|e: Edge| e@) == edges_of(
                ls.subrange(1, k as int),
                n as nat,
                index_correction as nat,
            ),
            forall|q: int| 0 <= q < edges@.len() ==> #[trigger] edges@[q].u < n && edges@[q].v < n,
        decreases rs@.len() - k,
    {
        assert(ls[k as int] == text@.subrange(rs[k as int].0 as int, rs[k as int].1 as int));
        assert(ls.subrange(1, k + 1).drop_last() =~= ls.subrange(1, k as int));
        let e = read_edge_line(text, rs[k].0, rs[k].1, n, index_correction);
        match e {
            Some(e) => {
                edges.push(e);
                assert(edges@.map_values(|e: Edge| e@) =~= edges_of(
                    ls.subrange(1, k as int),
                    n as nat,
                    index_correction as nat,
                ).push(e@));
            },
            None => {},
        }
        k = k + 1;
    }
    assert(ls.subrange(1, k as int) =~= ls.skip(1));
    Ok(GraphInput { n, edges })
}

/// One stored entry of Q before duplicates are summed: Q[row, col] receives
/// the weight of edge number `edge`, halved when `half` holds.
#[derive(Clone, Copy, Debug, PartialEq, Eq)]
pub struct Triplet {
    pub row: usize,
    pub col: usize,
    pub edge: usize,
    pub half: bool,
}

impl View for Triplet {
    type V = (nat, nat, nat, bool);

    open spec fn view(&self) -> (nat, nat, nat, bool) {
        (self.row as nat, self.col as nat, self.edge as nat, self.half)
    }
}

/// The entries of Q, edge by edge: a loop (u, u) puts its whole weight on
/// the diagonal; an edge u != v puts half its weight at (u, v) and half at
/// (v, u), so that the trace traversal counts it once.
pub open spec fn triplets_of(es: Seq<(nat, nat, Option<Seq<u8>>)>) -> Seq<(nat, nat, nat, bool)>
    decreases es.len(),
{
    if es.len() == 0 {
        seq![]
    } else {
        let prev = triplets_of(es.drop_last());
        let k = (es.len() - 1) as nat;
        let u = es.last().0;
        let v = es.last().1;
        if u == v {
            prev.push((u, u, k, false))
        } else {
            prev.push((u, v, k, true)).push((v, u, k, true))
        }
    }
}

/// What is stored at position (i, j), in the order it is stored.
pub open spec fn entries_at(ts: Seq<(nat, nat, nat, bool)>, i: nat, j: nat) -> Seq<(nat, bool)>
    decreases ts.len(),
{
    if ts.len() == 0 {
        seq![]
    } else {
        let t = ts.last();
        if t.0 == i && t.1 == j {
            entries_at(ts.drop_last(), i, j).push((t.2, t.3))
        } else {
            entries_at(ts.drop_last(), i, j)
        }
    }
}

/// The triplets of Q for a graph (see `triplets_of`); each lies inside the
/// n x n matrix.
pub fn symmetric_triplets(g: &GraphInput) -> (ts: Vec<Triplet>)
    requires
        g.wf(),
    ensures
        ts@.map_values(|t: Triplet| t@) == triplets_of(g.edge_views()),
        forall|q: int| 0 <= q < ts@.len() ==> #[trigger] ts@[q].row < g.n && ts@[q].col < g.n,
{
    let mut ts: Vec<Triplet> = Vec::new();
    let mut k: usize = 0;
    while k < g.edges.len()
        invariant
            g.wf(),
            k <= g.edges@.len(),
            ts@.map_values(|t: Triplet| t@) == triplets_of(g.edge_views().take(k as int)),
            forall|q: int| 0 <= q < ts@.len() ==> #[trigger] ts@[q].row < g.n && ts@[q].col < g.n,
        decreases g.edges@.len() - k,
    {
        let ghost es = g.edge_views().take(k + 1);
        assert(es.drop_last() =~= g.edge_views().take(k as int));
        assert(es.last() == g.edges@[k as int]@);
        let u = g.edges[k].u;
        let v = g.edges[k].v;
        if u == v {
            ts.push(Triplet { row: u, col: u, edge: k, half: false });
        } else {
            ts.push(Triplet { row: u, col: v, edge: k, half: true });
            ts.push(Triplet { row: v, col: u, edge: k, half: true });
        }
        assert(ts@.map_values(|t: Triplet| t@) =~= triplets_of(es));
        k = k + 1;
    }
    assert(g.edge_views().take(k as int) =~= g.edge_views());
    ts
}

/// Q is symmetric after loading: the entries stored at (i, j) are exactly
/// those stored at (j, i), in the same order, so summing duplicates gives
/// Q[i, j] == Q[j, i] exactly.
pub proof fn lemma_triplets_symmetric(es: Seq<(nat, nat, Option<Seq<u8>>)>, i: nat, j: nat)
    ensures
        entries_at(triplets_of(es), i, j) == entries_at(triplets_of(es), j, i),
    decreases es.len(),
{
    if es.len() > 0 {
        let prev = triplets_of(es.drop_last());
        lemma_triplets_symmetric(es.drop_last(), i, j);
        let k = (es.len() - 1) as nat;
        let u = es.last().0;
        let v = es.last().1;
        if u == v {
            assert(prev.push((u, u, k, false)).drop_last() =~= prev);
        } else {
            let p1 = prev.push((u, v, k, true));
            let p2 = p1.push((v, u, k, true));
            assert(p1.drop_last() =~= prev);
            assert(p2.drop_last() =~= p1);
            assert(entries_at(p1, i, j) == if u == i && v == j {
                entries_at(prev, i, j).push((k, true))
            } else {
                entries_at(prev, i, j)
            });
            assert(entries_at(p1, j, i) == if u == j && v == i {
                entries_at(prev, j, i).push((k, true))
            } else {
                entries_at(prev, j, i)
            });
            assert(entries_at(p2, i, j) == if v == i && u == j {
                entries_at(p1, i, j).push((k, true))
            } else {
                entries_at(p1, i, j)
            });
            assert(entries_at(p2, j, i) == if v == j && u == i {
                entries_at(p1, j, i).push((k, true))
            } else {
                entries_at(p1, j, i)
            });
        }
    }
}

} // verus!
