use vstd::prelude::*;

verus! {

/// What `char::is_numeric` says of a character.
pub uninterp spec fn numeric_char(c: char) -> bool;

/// Relies on `char::is_numeric`: whether `c` is in one of the Unicode
/// number categories (Nd, Nl, No), a function of `c` alone.
#[verifier::external_body]
fn is_numeric(c: char) -> (r: bool)
    ensures
        r == numeric_char(c),
{
    c.is_numeric()
}

/// Whether `c` belongs to a numeric fragment of a duration string. Among
/// ASCII characters the numeric ones are exactly the digits.
pub open spec fn is_num(c: char) -> bool {
    if (c as u32) < 128 {
        '0' <= c && c <= '9'
    } else {
        numeric_char(c)
    }
}

/// The maximal runs of numeric characters of `s`, left to right.
pub open spec fn fragments(s: Seq<char>) -> Seq<Seq<char>>
    decreases s.len(),
{
    if s.len() == 0 {
        seq![]
    } else {
        let init = fragments(s.drop_last());
        let c = s.last();
        if !is_num(c) {
            init
        } else if s.len() >= 2 && is_num(s[s.len() - 2]) {
            init.update(init.len() - 1, init.last().push(c))
        } else {
            init.push(seq![c])
        }
    }
}

pub open spec fn is_digit(c: char) -> bool {
    '0' <= c && c <= '9'
}

pub open spec fn digit_value(c: char) -> nat {
    ((c as u32) - ('0' as u32)) as nat
}

/// The decimal value of a run of digits.
pub open spec fn decimal(f: Seq<char>) -> nat
    decreases f.len(),
{
    if f.len() == 0 {
        0
    } else {
        decimal(f.drop_last()) * 10 + digit_value(f.last())
    }
}

/// The largest value a fragment may have: that of `i32`.
pub const FRAGMENT_MAX: u64 = 2147483647;

/// A fragment reads as an integer: decimal digits only, within `i32`.
pub open spec fn fragment_ok(f: Seq<char>) -> bool {
    &&& f.len() > 0
    &&& forall|i: int| 0 <= i < f.len() ==> is_digit(#[trigger] f[i])
    &&& decimal(f) <= FRAGMENT_MAX
}

pub open spec fn all_ok(fs: Seq<Seq<char>>) -> bool {
    forall|i: int| 0 <= i < fs.len() ==> fragment_ok(#[trigger] fs[i])
}

/// Positional weighting: the rightmost fragment counts once, the one
/// before it sixty times, and so on.
pub open spec fn weighted(fs: Seq<Seq<char>>) -> nat
    decreases fs.len(),
{
    if fs.len() == 0 {
        0
    } else {
        weighted(fs.drop_last()) * 60 + decimal(fs.last())
    }
}

#[derive(Debug, Clone, Copy, PartialEq, Eq, Structural)]
pub enum DurationError {
    /// A numeric fragment does not read as an integer.
    InvalidNumber,
    /// The total does not fit in `u64`.
    Overflow,
}

/// The number of seconds that a duration string stands for.
pub open spec fn seconds_of(s: Seq<char>) -> Result<u64, DurationError> {
    let fs = fragments(s);
    if !all_ok(fs) {
        Err(DurationError::InvalidNumber)
    } else if weighted(fs) > u64::MAX {
        Err(DurationError::Overflow)
    } else {
        Ok(weighted(fs) as u64)
    }
}

fn char_is_num(c: char) -> (r: bool)
    ensures
        r == is_num(c),
{
    if (c as u32) < 128 {
        '0' <= c && c <= '9'
    } else {
        is_numeric(c)
    }
}

proof fn lemma_weighted_grows(fs: Seq<Seq<char>>, f: Seq<char>)
    ensures
        weighted(fs.push(f)) >= weighted(fs),
{
    assert(fs.push(f).drop_last() =~= fs);
    let w = weighted(fs);
    assert(w * 60 >= w) by (nonlinear_arith);
}

proof fn lemma_fits(acc: u64, cur: u64)
    requires
        cur <= u64::MAX,
    ensures
        (acc <= (u64::MAX - cur) / 60) <==> (acc * 60 + cur <= u64::MAX),
{
    assert((acc <= (u64::MAX - cur) / 60) <==> (acc * 60 + cur <= u64::MAX)) by (nonlinear_arith)
        requires
            cur <= u64::MAX,
    ;
}

/// Reads a duration string such as `PT1H10M10S` as a number of seconds.
/// The string is cut at every non-numeric character; empty pieces are
/// skipped, and the remaining fragments are weighted by position from the
/// right (1, 60, 3600, ...) whatever unit letter follows them.
pub fn duration_to_seconds(duration: &String) -> (r: Result<u64, DurationError>)
    ensures
        r == seconds_of(duration@),
{
    let s = duration.as_str();
    let n = s.unicode_len();
    let ghost full = s@;
    let mut i: usize = 0;
    let mut open = false;
    let mut invalid = false;
    let mut over = false;
    let mut acc: u64 = 0;
    let mut cur: u64 = 0;
    while i < n
        invariant
            s@ == full,
            full == duration@,
            n == full.len(),
            0 <= i <= n,
            open == (i > 0 && is_num(full[i - 1])),
            ({
                let fs = fragments(full.take(i as int));
                &&& open ==> fs.len() > 0 && fs.last().len() > 0
                &&& invalid == !all_ok(fs)
                &&& !invalid && open ==> cur == decimal(fs.last())
                    && (over <==> weighted(fs.drop_last()) > u64::MAX)
                    && (!over ==> acc == weighted(fs.drop_last()))
                &&& !invalid && !open ==> (over <==> weighted(fs) > u64::MAX)
                    && (!over ==> acc == weighted(fs))
            }),
        decreases n - i,
    {
        let c = s.get_char(i);
        let ghost fs = fragments(full.take(i as int));
        assert(full.take(i + 1).drop_last() =~= full.take(i as int));
        assert(full.take(i + 1).last() == c);
        let num = char_is_num(c);
        if !num {
            if open && !invalid {
                proof {
                    lemma_weighted_grows(fs.drop_last(), fs.last());
                    assert(fs.drop_last().push(fs.last()) =~= fs);
                    lemma_fits(acc, cur);
                }
                if !over {
                    if acc <= (u64::MAX - cur) / 60 {
                        acc = acc * 60 + cur;
                    } else {
                        over = true;
                    }
                }
            }
            open = false;
        } else {
            let ghost fs2 = fragments(full.take(i + 1));
            if open {
                assert(i + 1 >= 2 && full.take(i + 1)[i - 1] == full[i - 1]);
                assert(fs2 == fs.update(fs.len() - 1, fs.last().push(c)));
                assert(fs2.drop_last() =~= fs.drop_last());
                if !invalid {
                    if '0' <= c && c <= '9' && cur <= (FRAGMENT_MAX - ((c as u32) - ('0' as u32)) as u64) / 10 {
                        cur = cur * 10 + ((c as u32) - ('0' as u32)) as u64;
                        assert(fs.last().push(c).drop_last() =~= fs.last());
                        assert(fs2.last() == fs.last().push(c));
                        assert(decimal(fs.last().push(c)) == decimal(fs.last()) * 10 + digit_value(c));
                        assert forall|k: int| 0 <= k < fs2.len() implies fragment_ok(#[trigger] fs2[k]) by {
                            if k < fs.len() - 1 {
                                assert(fs2[k] == fs[k]);
                            } else {
                                assert(fragment_ok(fs[k]));
                                let g = fs.last().push(c);
                                assert forall|j: int| 0 <= j < g.len() implies is_digit(#[trigger] g[j]) by {
                                    if j < g.len() - 1 {
                                        assert(g[j] == fs.last()[j]);
                                    }
                                }
                            }
                        }
                    } else {
                        invalid = true;
                        proof {
                            let g = fs.last().push(c);
                            assert(g.drop_last() =~= fs.last());
                            assert(!fragment_ok(fs2[fs2.len() - 1])) by {
                                if fragment_ok(g) {
                                    assert(is_digit(g[g.len() - 1]));
                                }
                            }
                        }
                    }
                } else {
                    proof {
                        let k = choose|k: int| 0 <= k < fs.len() && !fragment_ok(#[trigger] fs[k]);
                        if k < fs.len() - 1 {
                            assert(fs2[k] == fs[k]);
                        } else {
                            let g = fs.last().push(c);
                            assert(g.drop_last() =~= fs.last());
                            assert(!fragment_ok(fs2[k])) by {
                                if fragment_ok(g) {
                                    assert forall|j: int| 0 <= j < fs[k].len() implies is_digit(#[trigger] fs[k][j]) by {
                                        assert(fs[k][j] == g[j]);
                                    }
                                    assert(decimal(g) >= decimal(fs[k]));
                                }
                            }
                        }
                    }
                }
            } else {
                assert(!(i + 1 >= 2 && is_num(full.take(i + 1)[i - 1])));
                assert(fs2 == fs.push(seq![c]));
                assert(fs2.drop_last() =~= fs);
                assert(seq![c].drop_last() =~= Seq::<char>::empty());
                if !invalid {
                    if '0' <= c && c <= '9' {
                        cur = ((c as u32) - ('0' as u32)) as u64;
                        assert(decimal(Seq::<char>::empty()) == 0);
                        assert(seq![c].last() == c);
                        assert(fs2.last() == seq![c]);
                        assert(decimal(seq![c]) == digit_value(c));
                        assert forall|k: int| 0 <= k < fs2.len() implies fragment_ok(#[trigger] fs2[k]) by {
                            if k < fs.len() {
                                assert(fs2[k] == fs[k]);
                            } else {
                                assert(fs2[k] == seq![c]);
                            }
                        }
                    } else {
                        invalid = true;
                        assert(!fragment_ok(fs2[fs2.len() - 1]));
                    }
                } else {
                    proof {
                        let k = choose|k: int| 0 <= k < fs.len() && !fragment_ok(#[trigger] fs[k]);
                        assert(fs2[k] == fs[k]);
                    }
                }
            }
            open = true;
        }
        i = i + 1;
    }
    assert(full.take(n as int) =~= full);
    if invalid {
        return Err(DurationError::InvalidNumber);
    }
    if open {
        let ghost fs = fragments(full);
        proof {
            lemma_weighted_grows(fs.drop_last(), fs.last());
            assert(fs.drop_last().push(fs.last()) =~= fs);
            lemma_fits(acc, cur);
        }
        if !over {
            if acc <= (u64::MAX - cur) / 60 {
                acc = acc * 60 + cur;
            } else {
                over = true;
            }
        }
    }
    if over {
        Err(DurationError::Overflow)
    } else {
        Ok(acc)
    }
}

/// One component of an ISO 8601 duration: its digits and unit letter, or
/// nothing where the component is absent.
pub open spec fn component(digits: Option<Seq<char>>, unit: char) -> Seq<char> {
    match digits {
        Some(d) => d.push(unit),
        None => seq![],
    }
}

/// The duration `PT<h>H<m>M<s>S` with the absent components left out.
pub open spec fn iso_duration(h: Option<Seq<char>>, m: Option<Seq<char>>, s: Option<Seq<char>>) -> Seq<char> {
    seq!['P', 'T'] + component(h, 'H') + component(m, 'M') + component(s, 'S')
}

pub open spec fn component_ok(d: Option<Seq<char>>) -> bool {
    match d {
        Some(f) => fragment_ok(f),
        None => true,
    }
}

pub open spec fn component_value(d: Option<Seq<char>>) -> nat {
    match d {
        Some(f) => decimal(f),
        None => 0,
    }
}

spec fn present(d: Option<Seq<char>>) -> Seq<Seq<char>> {
    match d {
        Some(f) => seq![f],
        None => seq![],
    }
}

proof fn lemma_append_digits(p: Seq<char>, d: Seq<char>)
    requires
        p.len() > 0,
        !is_num(p.last()),
        d.len() > 0,
        forall|i: int| 0 <= i < d.len() ==> is_digit(#[trigger] d[i]),
    ensures
        fragments(p + d) == fragments(p).push(d),
    decreases d.len(),
{
    let c = d.last();
    assert((p + d).drop_last() =~= p + d.drop_last());
    assert(is_digit(d[d.len() - 1]));
    if d.len() == 1 {
        assert(p + d.drop_last() =~= p);
        assert(d =~= seq![c]);
    } else {
        lemma_append_digits(p, d.drop_last());
        assert(is_digit(d[d.len() - 2]));
        assert((p + d)[(p + d).len() - 2] == d[d.len() - 2]);
        let fs = fragments(p + d.drop_last());
        assert(fs.last() == d.drop_last());
        assert(d.drop_last().push(c) =~= d);
        assert(fs.update(fs.len() - 1, d) =~= fragments(p).push(d));
    }
}

proof fn lemma_component(p: Seq<char>, d: Option<Seq<char>>, unit: char)
    requires
        p.len() > 0,
        !is_num(p.last()),
        (unit as u32) < 128,
        !is_digit(unit),
        component_ok(d),
    ensures
        fragments(p + component(d, unit)) == fragments(p) + present(d),
        (p + component(d, unit)).len() > 0,
        !is_num((p + component(d, unit)).last()),
{
    match d {
        Some(f) => {
            lemma_append_digits(p, f);
            assert(p + f.push(unit) =~= (p + f).push(unit));
            assert((p + f).push(unit).drop_last() =~= p + f);
            assert(fragments(p).push(f) =~= fragments(p) + seq![f]);
        },
        None => {
            assert(p + seq![] =~= p);
            assert(fragments(p) + seq![] =~= fragments(p));
        },
    }
}

/// For a duration `PT<h>H<m>M<s>S` whose components are decimal numbers
/// within `i32` and whose present components run down to the seconds
/// without a gap, the number of seconds is `h * 3600 + m * 60 + s`.
pub proof fn lemma_iso_duration(h: Option<Seq<char>>, m: Option<Seq<char>>, s: Option<Seq<char>>)
    requires
        component_ok(h),
        component_ok(m),
        component_ok(s),
        h is Some ==> m is Some,
        m is Some ==> s is Some,
    ensures
        seconds_of(iso_duration(h, m, s)) == Ok::<u64, DurationError>(
            (component_value(h) * 3600 + component_value(m) * 60 + component_value(s)) as u64,
        ),
{
    let pt = seq!['P', 'T'];
    assert(pt.drop_last() =~= seq!['P']);
    assert(seq!['P'].drop_last() =~= Seq::<char>::empty());
    assert(fragments(Seq::<char>::empty()) == Seq::<Seq<char>>::empty());
    assert(!is_num('P') && !is_num('T'));
    assert(fragments(seq!['P']) == Seq::<Seq<char>>::empty());
    assert(fragments(pt) == Seq::<Seq<char>>::empty());
    lemma_component(pt, h, 'H');
    let p1 = pt + component(h, 'H');
    lemma_component(p1, m, 'M');
    let p2 = p1 + component(m, 'M');
    lemma_component(p2, s, 'S');
    let fs = fragments(iso_duration(h, m, s));
    assert(fs =~= present(h) + present(m) + present(s));
    let hv = component_value(h);
    let mv = component_value(m);
    let sv = component_value(s);
    assert(hv <= FRAGMENT_MAX && mv <= FRAGMENT_MAX && sv <= FRAGMENT_MAX);
    assert(weighted(Seq::<Seq<char>>::empty()) == 0);
    if h is Some {
        let (hf, mf, sf) = (h->0, m->0, s->0);
        assert(fs == seq![hf, mf, sf]);
        assert(fs.drop_last() =~= seq![hf, mf]);
        assert(seq![hf, mf].drop_last() =~= seq![hf]);
        assert(seq![hf].drop_last() =~= Seq::<Seq<char>>::empty());
        assert(weighted(seq![hf]) == hv);
        assert(weighted(seq![hf, mf]) == hv * 60 + mv);
        assert(weighted(fs) == ((hv * 60) + mv) * 60 + sv);
    } else if m is Some {
        let (mf, sf) = (m->0, s->0);
        assert(fs == seq![mf, sf]);
        assert(fs.drop_last() =~= seq![mf]);
        assert(seq![mf].drop_last() =~= Seq::<Seq<char>>::empty());
        assert(weighted(seq![mf]) == mv);
        assert(weighted(fs) == mv * 60 + sv);
    } else if s is Some {
        let sf = s->0;
        assert(fs == seq![sf]);
        assert(fs.drop_last() =~= Seq::<Seq<char>>::empty());
        assert(weighted(fs) == sv);
    } else {
        assert(fs =~= Seq::<Seq<char>>::empty());
    }
    assert(all_ok(fs));
}

} // verus!
