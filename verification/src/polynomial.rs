//! Polynomial terms in several features: how many there are, and which.

use vstd::prelude::*;
use crate::text::{numeral, push_numeral, push_wide_numeral};

verus! {

/// Terms that a design may have.
pub const MAX_POLYNOMIAL_TERMS: usize = 100_000;

/// Cells that a design may have.
pub const MAX_POLYNOMIAL_DESIGN_CELLS: usize = 50_000_000;

#[derive(Clone, Copy, Debug, PartialEq, Eq, Structural)]
pub enum PolynomialError {
    NoFeature,
    NoDegree,
    CountOverflow,
    TooManyTerms { count: u128 },
    SizeOverflow,
    TooManyCells { cells: usize },
}

impl PolynomialError {
    pub open spec fn text(self) -> Seq<char> {
        match self {
            PolynomialError::NoFeature => "x must have at least one feature"@,
            PolynomialError::NoDegree => "degree must be at least 1"@,
            PolynomialError::CountOverflow => "polynomial term count overflowed"@,
            PolynomialError::TooManyTerms { count } => "polynomial design has "@ + numeral(
                count as nat,
            ) + " terms; maximum supported is "@ + numeral(MAX_POLYNOMIAL_TERMS as nat),
            PolynomialError::SizeOverflow => "polynomial design size overflowed"@,
            PolynomialError::TooManyCells { cells } => "polynomial design needs "@ + numeral(
                cells as nat,
            ) + " cells; maximum supported is "@ + numeral(MAX_POLYNOMIAL_DESIGN_CELLS as nat),
        }
    }

    /// The message shown to the user.
    pub fn message(&self) -> (r: String)
        ensures
            r@ == self.text(),
    {
        match self {
            PolynomialError::NoFeature => "x must have at least one feature".to_owned(),
            PolynomialError::NoDegree => "degree must be at least 1".to_owned(),
            PolynomialError::CountOverflow => "polynomial term count overflowed".to_owned(),
            PolynomialError::TooManyTerms { count } => {
                let mut out = "polynomial design has ".to_owned();
                push_wide_numeral(&mut out, *count);
                out.append(" terms; maximum supported is ");
                push_numeral(&mut out, MAX_POLYNOMIAL_TERMS as u64);
                out
            },
            PolynomialError::SizeOverflow => "polynomial design size overflowed".to_owned(),
            PolynomialError::TooManyCells { cells } => {
                let mut out = "polynomial design needs ".to_owned();
                push_numeral(&mut out, *cells as u64);
                out.append(" cells; maximum supported is ");
                push_numeral(&mut out, MAX_POLYNOMIAL_DESIGN_CELLS as u64);
                out
            },
        }
    }
}

/// How many ways there are to choose `k` out of `n`.
pub open spec fn choices(n: nat, k: nat) -> nat
    decreases n,
{
    if k == 0 {
        1
    } else if n == 0 {
        0
    } else {
        choices((n - 1) as nat, (k - 1) as nat) + choices((n - 1) as nat, k)
    }
}

proof fn no_more_than_all(n: nat, k: nat)
    requires
        k > n,
    ensures
        choices(n, k) == 0,
    decreases n,
{
    if n > 0 {
        no_more_than_all((n - 1) as nat, (k - 1) as nat);
        no_more_than_all((n - 1) as nat, k);
    }
}

/// Choosing one member first and the others after it counts every choice `k`
/// times.
proof fn absorption(m: nat, k: nat)
    requires
        m > 0,
        k > 0,
    ensures
        k * choices(m, k) == m * choices((m - 1) as nat, (k - 1) as nat),
    decreases m,
{
    let a = choices((m - 1) as nat, (k - 1) as nat);
    let b = choices((m - 1) as nat, k);
    assert(choices(m, k) == a + b);
    if m == 1 {
        if k == 1 {
            assert(choices(0, 1) == 0);
        } else {
            no_more_than_all(0, k);
            no_more_than_all(0, (k - 1) as nat);
            assert(k * choices(m, k) == 0) by (nonlinear_arith)
                requires
                    choices(m, k) == 0,
            ;
        }
    } else {
        let d = choices((m - 2) as nat, (k - 1) as nat);
        absorption((m - 1) as nat, k);
        assert(k * b == (m - 1) * d);
        if k == 1 {
            assert(a == 1);
            assert(d == 1);
            assert(k * (a + b) == m * a) by (nonlinear_arith)
                requires
                    k == 1,
                    a == 1,
                    d == 1,
                    k * b == (m - 1) * d,
            ;
        } else {
            let c = choices((m - 2) as nat, (k - 2) as nat);
            absorption((m - 1) as nat, (k - 1) as nat);
            assert((k - 1) * a == (m - 1) * c);
            assert(a == c + d);
            assert(k * (a + b) == m * a) by (nonlinear_arith)
                requires
                    k * b == (m - 1) * d,
                    (k - 1) * a == (m - 1) * c,
                    a == c + d,
            ;
        }
    }
}

proof fn choices_are_positive(n: nat, k: nat)
    requires
        k <= n,
    ensures
        choices(n, k) > 0,
    decreases n,
{
    if k > 0 {
        choices_are_positive((n - 1) as nat, (k - 1) as nat);
    }
}

/// The step from degree `d - 1` to degree `d` does not fit: its factor overflows
/// a machine word, or the product overflows 128 bits.
pub open spec fn overflows_at(n_features: nat, d: nat) -> bool {
    n_features + d > usize::MAX || choices((n_features + d - 1) as nat, (d - 1) as nat) * (
    n_features + d) > u128::MAX
}

/// The terms of degree 1 to `degree` in `n_features` features: every monomial
/// but the constant.
pub open spec fn term_count(n_features: nat, degree: nat) -> int {
    choices(n_features + degree, degree) - 1
}

/// Why a polynomial is refused, if it is.
pub open spec fn terms_fault(n_features: nat, degree: nat) -> Option<PolynomialError> {
    if n_features == 0 {
        Some(PolynomialError::NoFeature)
    } else if degree == 0 {
        Some(PolynomialError::NoDegree)
    } else if exists|d: nat| 1 <= d <= degree && #[trigger] overflows_at(n_features, d) {
        Some(PolynomialError::CountOverflow)
    } else if term_count(n_features, degree) > MAX_POLYNOMIAL_TERMS {
        Some(PolynomialError::TooManyTerms { count: term_count(n_features, degree) as u128 })
    } else {
        None
    }
}

pub fn polynomial_term_count(n_features: usize, degree: usize) -> (r: Result<
    usize,
    PolynomialError,
>)
    ensures
        match r {
            Ok(count) => terms_fault(n_features as nat, degree as nat) is None && count
                == term_count(n_features as nat, degree as nat),
            Err(e) => terms_fault(n_features as nat, degree as nat) == Some(e),
        },
{
    if n_features == 0 {
        return Err(PolynomialError::NoFeature);
    }
    if degree == 0 {
        return Err(PolynomialError::NoDegree);
    }
    let mut combinations: u128 = 1;
    let mut current: usize = 0;
    while current < degree
        invariant
            n_features > 0,
            degree > 0,
            current <= degree,
            combinations == choices((n_features + current) as nat, current as nat),
            forall|d: nat| 1 <= d <= current ==> !#[trigger] overflows_at(n_features as nat, d),
        decreases degree - current,
    {
        current += 1;
        let ghost n = n_features as nat;
        let ghost d = current as nat;
        let ghost last = choices((n + d - 1) as nat, (d - 1) as nat);
        let factor: usize = match n_features.checked_add(current) {
            Some(factor) => factor,
            None => {
                assert(overflows_at(n, d));
                return Err(PolynomialError::CountOverflow);
            },
        };
        match combinations.checked_mul(factor as u128) {
            None => {
                assert(overflows_at(n, d));
                return Err(PolynomialError::CountOverflow);
            },
            Some(product) => {
                proof {
                    assert(product == last * (n + d));
                    absorption((n + d) as nat, d);
                    assert(d * choices((n + d) as nat, d) == (n + d) * last);
                    assert(last * (n + d) == (n + d) * last) by (nonlinear_arith);
                    let next = choices((n + d) as nat, d) as int;
                    assert(product as int == d * next);
                    assert((d * next) / (d as int) == next) by (nonlinear_arith)
                        requires
                            d > 0,
                    ;
                    assert(!overflows_at(n, d));
                }
                combinations = product / (current as u128);
            },
        }
    }
    proof {
        choices_are_positive((n_features + degree) as nat, degree as nat);
    }
    let count: u128 = combinations - 1;
    if count > MAX_POLYNOMIAL_TERMS as u128 {
        return Err(PolynomialError::TooManyTerms { count });
    }
    Ok(count as usize)
}

/// Why a design is refused, if it is: a row has the terms and a constant.
pub open spec fn size_fault(n_rows: nat, n_terms: nat) -> Option<PolynomialError> {
    let cells = n_rows * (n_terms + 1);
    if cells > usize::MAX {
        Some(PolynomialError::SizeOverflow)
    } else if cells > MAX_POLYNOMIAL_DESIGN_CELLS {
        Some(PolynomialError::TooManyCells { cells: cells as usize })
    } else {
        None
    }
}

pub fn validate_polynomial_design_size(n_rows: usize, n_terms: usize) -> (r: Result<
    (),
    PolynomialError,
>)
    requires
        n_terms < usize::MAX,
    ensures
        match r {
            Ok(_) => size_fault(n_rows as nat, n_terms as nat) is None,
            Err(e) => size_fault(n_rows as nat, n_terms as nat) == Some(e),
        },
{
    match n_rows.checked_mul(n_terms + 1) {
        None => Err(PolynomialError::SizeOverflow),
        Some(cells) => if cells > MAX_POLYNOMIAL_DESIGN_CELLS {
            Err(PolynomialError::TooManyCells { cells })
        } else {
            Ok(())
        },
    }
}

/// The terms that start with `prefix` and go on with `degree` more features,
/// none below `start` and none before an earlier one, in lexicographic order.
pub open spec fn extensions(n: nat, start: nat, degree: nat, prefix: Seq<usize>) -> Seq<Seq<usize>>
    decreases degree, n - start,
{
    if degree == 0 {
        seq![prefix]
    } else if start >= n {
        Seq::empty()
    } else {
        extensions(n, start, (degree - 1) as nat, prefix.push(start as usize)) + extensions(
            n,
            start + 1,
            degree,
            prefix,
        )
    }
}

/// The terms of degree 1 to `degree`, by degree and then lexicographically.
pub open spec fn terms_upto(n: nat, degree: nat) -> Seq<Seq<usize>>
    decreases degree,
{
    if degree == 0 {
        Seq::empty()
    } else {
        terms_upto(n, (degree - 1) as nat) + extensions(n, 0, degree, Seq::empty())
    }
}

pub open spec fn term_views(terms: Seq<Vec<usize>>) -> Seq<Seq<usize>> {
    Seq::new(terms.len(), |i: int| terms[i]@)
}

fn copy_term(term: &Vec<usize>) -> (r: Vec<usize>)
    ensures
        r@ == term@,
{
    let mut out: Vec<usize> = Vec::new();
    let mut i: usize = 0;
    while i < term.len()
        invariant
            i <= term@.len(),
            out@ == term@.take(i as int),
        decreases term@.len() - i,
    {
        out.push(term[i]);
        i += 1;
        assert(term@.take(i as int) =~= term@.take(i - 1).push(term@[i - 1]));
    }
    assert(term@.take(term@.len() as int) =~= term@);
    out
}

/// Appends the terms that extend `current`.
pub fn append_polynomial_terms(
    n_features: usize,
    start: usize,
    remaining_degree: usize,
    current: &mut Vec<usize>,
    terms: &mut Vec<Vec<usize>>,
)
    requires
        start <= n_features,
    ensures
        final(current)@ == old(current)@,
        term_views(final(terms)@) == term_views(old(terms)@) + extensions(
            n_features as nat,
            start as nat,
            remaining_degree as nat,
            old(current)@,
        ),
    decreases remaining_degree,
{
    let ghost prefix = current@;
    let ghost before = term_views(terms@);
    if remaining_degree == 0 {
        let ghost items = terms@;
        let copy = copy_term(current);
        terms.push(copy);
        proof {
            assert(term_views(terms@) =~= before + seq![prefix]);
        }
        return;
    }
    let mut feature: usize = start;
    let ghost whole = extensions(
        n_features as nat,
        start as nat,
        remaining_degree as nat,
        prefix,
    );
    while feature < n_features
        invariant
            remaining_degree > 0,
            start <= feature <= n_features,
            current@ == prefix,
            before + whole == term_views(terms@) + extensions(
                n_features as nat,
                feature as nat,
                remaining_degree as nat,
                prefix,
            ),
        decreases n_features - feature,
    {
        let ghost so_far = term_views(terms@);
        current.push(feature);
        append_polynomial_terms(n_features, feature, remaining_degree - 1, current, terms);
        current.pop();
        proof {
            assert(current@ =~= prefix);
            let here = extensions(
                n_features as nat,
                feature as nat,
                (remaining_degree - 1) as nat,
                prefix.push(feature),
            );
            let rest = extensions(
                n_features as nat,
                (feature + 1) as nat,
                remaining_degree as nat,
                prefix,
            );
            assert(so_far + (here + rest) =~= (so_far + here) + rest);
        }
        feature += 1;
    }
    proof {
        assert(term_views(terms@) + Seq::<Seq<usize>>::empty() =~= term_views(terms@));
    }
}

/// The terms of a polynomial.
pub fn polynomial_terms(n_features: usize, degree: usize) -> (r: Result<
    Vec<Vec<usize>>,
    PolynomialError,
>)
    ensures
        match r {
            Ok(terms) => {
                &&& terms_fault(n_features as nat, degree as nat) is None
                &&& term_views(terms@) == terms_upto(n_features as nat, degree as nat)
                &&& terms@.len() == term_count(n_features as nat, degree as nat)
            },
            Err(e) => terms_fault(n_features as nat, degree as nat) == Some(e),
        },
{
    match polynomial_term_count(n_features, degree) {
        Ok(_) => {},
        Err(e) => {
            return Err(e);
        },
    }
    let mut terms: Vec<Vec<usize>> = Vec::new();
    let mut current: Vec<usize> = Vec::new();
    assert(current@ =~= Seq::<usize>::empty());
    assert(term_views(terms@) =~= Seq::<Seq<usize>>::empty());
    let mut d: usize = 0;
    while d < degree
        invariant
            d <= degree,
            current@ == Seq::<usize>::empty(),
            term_views(terms@) == terms_upto(n_features as nat, d as nat),
        decreases degree - d,
    {
        d += 1;
        append_polynomial_terms(n_features, 0, d, &mut current, &mut terms);
    }
    proof {
        terms_are_counted(n_features as nat, degree as nat);
        assert(term_views(terms@).len() == terms@.len());
    }
    Ok(terms)
}

/// Terms of one degree over `m` features: as many as choices with repetition.
proof fn extensions_are_counted(n: nat, start: nat, degree: nat, prefix: Seq<usize>)
    requires
        start <= n,
        degree > 0 ==> start < n || n > 0,
    ensures
        extensions(n, start, degree, prefix).len() == (if degree == 0 {
            1
        } else if start >= n {
            0
        } else {
            choices((n - start + degree - 1) as nat, degree)
        }),
    decreases degree, n - start,
{
    if degree > 0 && start < n {
        extensions_are_counted(n, start, (degree - 1) as nat, prefix.push(start as usize));
        extensions_are_counted(n, start + 1, degree, prefix);
        let m = (n - start) as nat;
        let top = (m + degree - 1) as nat;
        assert(choices(top, degree) == choices((top - 1) as nat, (degree - 1) as nat) + choices(
            (top - 1) as nat,
            degree,
        ));
        if degree == 1 {
            assert(choices((top - 1) as nat, 0) == 1);
        }
        if start + 1 >= n {
            assert(m == 1);
            no_more_than_all((top - 1) as nat, degree);
        }
    }
}

/// There are exactly as many terms as the count says.
pub proof fn terms_are_counted(n: nat, degree: nat)
    requires
        n > 0,
    ensures
        terms_upto(n, degree).len() == term_count(n, degree),
    decreases degree,
{
    if degree > 0 {
        let before = (degree - 1) as nat;
        terms_are_counted(n, before);
        extensions_are_counted(n, 0, degree, Seq::empty());
        assert(choices(n + degree, degree) == choices((n + degree - 1) as nat, before) + choices(
            (n + degree - 1) as nat,
            degree,
        ));
        assert(n + before == (n + degree - 1) as nat);
    } else {
        assert(choices(n, 0) == 1);
    }
}

/// Never falling.
pub open spec fn nondecreasing(s: Seq<usize>) -> bool {
    forall|i: int, j: int| 0 <= i <= j < s.len() ==> s[i] <= s[j]
}

/// A monomial of the given degree that extends `prefix`: features below `n`,
/// in order, the new ones none below `start`.
pub open spec fn is_extension(
    t: Seq<usize>,
    n: nat,
    start: nat,
    degree: nat,
    prefix: Seq<usize>,
) -> bool {
    &&& t.len() == prefix.len() + degree
    &&& t.take(prefix.len() as int) == prefix
    &&& forall|i: int| prefix.len() <= i < t.len() ==> start <= #[trigger] t[i] < n
    &&& forall|i: int, j: int| prefix.len() <= i <= j < t.len() ==> t[i] <= t[j]
}

proof fn extensions_are_exact(
    n: nat,
    start: nat,
    degree: nat,
    prefix: Seq<usize>,
    t: Seq<usize>,
)
    requires
        n <= usize::MAX,
    ensures
        extensions(n, start, degree, prefix).contains(t) <==> is_extension(
            t,
            n,
            start,
            degree,
            prefix,
        ),
    decreases degree, n - start,
{
    let all = extensions(n, start, degree, prefix);
    if degree == 0 {
        assert(all[0] == prefix);
        if all.contains(t) {
            assert(t.take(prefix.len() as int) =~= prefix);
        }
        if is_extension(t, n, start, degree, prefix) {
            assert(t =~= t.take(prefix.len() as int));
        }
    } else if start >= n {
        if is_extension(t, n, start, degree, prefix) {
            assert(start <= t[prefix.len() as int] < n);
        }
    } else {
        let longer = prefix.push(start as usize);
        let a = extensions(n, start, (degree - 1) as nat, longer);
        let b = extensions(n, start + 1, degree, prefix);
        extensions_are_exact(n, start, (degree - 1) as nat, longer, t);
        extensions_are_exact(n, start + 1, degree, prefix, t);
        if all.contains(t) {
            let k = choose|k: int| 0 <= k < all.len() && all[k] == t;
            if k < a.len() {
                assert(a[k] == t);
            } else {
                assert(b[k - a.len()] == t);
            }
        }
        if a.contains(t) {
            let k = choose|k: int| 0 <= k < a.len() && a[k] == t;
            assert(all[k] == t);
            let p = prefix.len() as int;
            assert(t.take(p + 1)[p] == longer[p]);
            assert(t[p] == start as usize);
            assert(t.take(p) =~= t.take(p + 1).take(p));
            assert(longer.take(p) =~= prefix);
        }
        if b.contains(t) {
            let k = choose|k: int| 0 <= k < b.len() && b[k] == t;
            assert(all[a.len() + k] == t);
        }
        if is_extension(t, n, start, degree, prefix) {
            let p = prefix.len() as int;
            if t[p] == start as usize {
                assert(t.take(p + 1) =~= longer) by {
                    assert forall|i: int| 0 <= i < p implies t[i] == prefix[i] by {
                        assert(t.take(p)[i] == prefix[i]);
                    }
                }
                assert(is_extension(t, n, start, (degree - 1) as nat, longer));
            } else {
                assert forall|i: int| p <= i < t.len() implies start + 1 <= #[trigger] t[i] < n by {
                    assert(t[p] <= t[i]);
                }
                assert(is_extension(t, n, start + 1, degree, prefix));
            }
        }
    }
}

/// The terms are exactly the monomials of degree 1 to `degree`: features below
/// `n` in order.
pub proof fn terms_are_the_monomials(n: nat, degree: nat, t: Seq<usize>)
    requires
        n <= usize::MAX,
    ensures
        terms_upto(n, degree).contains(t) <==> (1 <= t.len() <= degree && nondecreasing(t)
            && forall|i: int| 0 <= i < t.len() ==> #[trigger] t[i] < n),
    decreases degree,
{
    if degree > 0 {
        let before = terms_upto(n, (degree - 1) as nat);
        let here = extensions(n, 0, degree, Seq::empty());
        let all = terms_upto(n, degree);
        terms_are_the_monomials(n, (degree - 1) as nat, t);
        extensions_are_exact(n, 0, degree, Seq::empty(), t);
        assert(t.take(0) =~= Seq::<usize>::empty());
        if all.contains(t) {
            let k = choose|k: int| 0 <= k < all.len() && all[k] == t;
            if k < before.len() {
                assert(before[k] == t);
            } else {
                assert(here[k - before.len()] == t);
            }
        }
        if before.contains(t) {
            let k = choose|k: int| 0 <= k < before.len() && before[k] == t;
            assert(all[k] == t);
        }
        if here.contains(t) {
            let k = choose|k: int| 0 <= k < here.len() && here[k] == t;
            assert(all[before.len() + k] == t);
        }
    }
}

proof fn extensions_differ(n: nat, start: nat, degree: nat, prefix: Seq<usize>)
    requires
        n <= usize::MAX,
    ensures
        extensions(n, start, degree, prefix).no_duplicates(),
    decreases degree, n - start,
{
    if degree > 0 && start < n {
        let longer = prefix.push(start as usize);
        let a = extensions(n, start, (degree - 1) as nat, longer);
        let b = extensions(n, start + 1, degree, prefix);
        let all = extensions(n, start, degree, prefix);
        extensions_differ(n, start, (degree - 1) as nat, longer);
        extensions_differ(n, start + 1, degree, prefix);
        let p = prefix.len() as int;
        assert forall|i: int, j: int| 0 <= i < all.len() && 0 <= j < all.len() && i != j implies all[i]
            != all[j] by {
            if i < a.len() && j < a.len() {
                assert(a[i] != a[j]);
            } else if i >= a.len() && j >= a.len() {
                assert(b[i - a.len()] != b[j - a.len()]);
            } else {
                let x = if i < a.len() {
                    all[i]
                } else {
                    all[j]
                };
                let y = if i < a.len() {
                    all[j]
                } else {
                    all[i]
                };
                assert(a.contains(x));
                assert(b.contains(y));
                extensions_are_exact(n, start, (degree - 1) as nat, longer, x);
                extensions_are_exact(n, start + 1, degree, prefix, y);
                assert(x.take(p + 1)[p] == longer[p]);
                assert(x[p] == start as usize);
                assert(y[p] >= start + 1);
            }
        }
    }
}

/// No term is listed twice.
pub proof fn terms_differ(n: nat, degree: nat)
    requires
        n <= usize::MAX,
    ensures
        terms_upto(n, degree).no_duplicates(),
    decreases degree,
{
    if degree > 0 {
        let before = terms_upto(n, (degree - 1) as nat);
        let here = extensions(n, 0, degree, Seq::empty());
        let all = terms_upto(n, degree);
        terms_differ(n, (degree - 1) as nat);
        extensions_differ(n, 0, degree, Seq::empty());
        assert forall|i: int, j: int| 0 <= i < all.len() && 0 <= j < all.len() && i != j implies all[i]
            != all[j] by {
            if i < before.len() && j < before.len() {
                assert(before[i] != before[j]);
            } else if i >= before.len() && j >= before.len() {
                assert(here[i - before.len()] != here[j - before.len()]);
            } else {
                let x = if i < before.len() {
                    all[i]
                } else {
                    all[j]
                };
                let y = if i < before.len() {
                    all[j]
                } else {
                    all[i]
                };
                assert(before.contains(x));
                assert(here.contains(y));
                terms_are_the_monomials(n, (degree - 1) as nat, x);
                extensions_are_exact(n, 0, degree, Seq::empty(), y);
            }
        }
    }
}

/// `s` comes before `t` in lexicographic order: at the first place where they
/// differ, `s` has the smaller feature.
pub open spec fn precedes(s: Seq<usize>, t: Seq<usize>) -> bool {
    exists|k: int|
        0 <= k < s.len() && k < t.len() && #[trigger] s[k] < t[k] && forall|i: int|
            0 <= i < k ==> #[trigger] s[i] == t[i]
}

proof fn extensions_are_in_order(n: nat, start: nat, degree: nat, prefix: Seq<usize>)
    requires
        n <= usize::MAX,
    ensures
        forall|a: int, b: int|
            0 <= a < b < extensions(n, start, degree, prefix).len() ==> precedes(
                #[trigger] extensions(n, start, degree, prefix)[a],
                #[trigger] extensions(n, start, degree, prefix)[b],
            ),
    decreases degree, n - start,
{
    if degree > 0 && start < n {
        let longer = prefix.push(start as usize);
        extensions_are_in_order(n, start, (degree - 1) as nat, longer);
        extensions_are_in_order(n, start + 1, degree, prefix);
        let with = extensions(n, start, (degree - 1) as nat, longer);
        let without = extensions(n, start + 1, degree, prefix);
        let whole = extensions(n, start, degree, prefix);
        assert forall|a: int, b: int| 0 <= a < b < whole.len() implies precedes(
            #[trigger] whole[a],
            #[trigger] whole[b],
        ) by {
            if b < with.len() {
                assert(whole[a] == with[a] && whole[b] == with[b]);
            } else if a >= with.len() {
                assert(whole[a] == without[a - with.len()]);
                assert(whole[b] == without[b - with.len()]);
            } else {
                let s = whole[a];
                let t = whole[b];
                assert(s == with[a]);
                assert(t == without[b - with.len()]);
                assert(with.contains(s));
                assert(without.contains(t));
                extensions_are_exact(n, start, (degree - 1) as nat, longer, s);
                extensions_are_exact(n, start + 1, degree, prefix, t);
                let k = prefix.len() as int;
                assert(s.take(k + 1)[k] == longer[k]);
                assert(s[k] < t[k]);
                assert forall|i: int| 0 <= i < k implies #[trigger] s[i] == t[i] by {
                    assert(s.take(k + 1)[i] == longer[i]);
                    assert(t.take(k)[i] == prefix[i]);
                }
            }
        }
    }
}

/// Terms come by degree, and in lexicographic order within a degree.
pub proof fn terms_are_in_order(n: nat, degree: nat, a: int, b: int)
    requires
        n <= usize::MAX,
        0 <= a < b < terms_upto(n, degree).len(),
    ensures
        ({
            let s = terms_upto(n, degree)[a];
            let t = terms_upto(n, degree)[b];
            s.len() < t.len() || (s.len() == t.len() && precedes(s, t))
        }),
    decreases degree,
{
    let before = terms_upto(n, (degree - 1) as nat);
    let added = extensions(n, 0, degree, Seq::empty());
    let whole = terms_upto(n, degree);
    let s = whole[a];
    let t = whole[b];
    if b < before.len() {
        terms_are_in_order(n, (degree - 1) as nat, a, b);
    } else {
        assert(t == added[b - before.len()]);
        assert(added.contains(t));
        extensions_are_exact(n, 0, degree, Seq::empty(), t);
        if a < before.len() {
            assert(s == before[a]);
            assert(before.contains(s));
            terms_are_the_monomials(n, (degree - 1) as nat, s);
        } else {
            assert(s == added[a - before.len()]);
            assert(added.contains(s));
            extensions_are_exact(n, 0, degree, Seq::empty(), s);
            extensions_are_in_order(n, 0, degree, Seq::empty());
        }
    }
}

/// A design is accepted exactly when its rows times its terms and constant fit
/// under the limit.
pub proof fn designs_fit_under_the_limit(n_rows: nat, n_terms: nat)
    ensures
        size_fault(n_rows, n_terms) is None <==> n_rows * (n_terms + 1) <= usize::MAX && n_rows * (
        n_terms + 1) <= 50_000_000,
{
}

/// Choices satisfy the rule by which they can be computed one after another:
/// choosing `k` of `m` and marking one of them is choosing one of `m` and `k - 1`
/// of the rest.  There is one way to choose none and none to choose too many.
pub proof fn choices_are_binomial(m: nat, k: nat)
    ensures
        choices(m, 0) == 1,
        k > m ==> choices(m, k) == 0,
        m > 0 && k > 0 ==> k * choices(m, k) == m * choices((m - 1) as nat, (k - 1) as nat),
{
    if k > m {
        no_more_than_all(m, k);
    }
    if m > 0 && k > 0 {
        absorption(m, k);
    }
}

/// A polynomial is accepted exactly when it has a feature and a degree, no step of
/// the count overflows, and it has no more than a hundred thousand terms.
pub proof fn usable_polynomials(n_features: nat, degree: nat)
    ensures
        terms_fault(n_features, degree) is None <==> {
            &&& n_features >= 1 && degree >= 1
            &&& forall|d: nat| 1 <= d <= degree ==> !#[trigger] overflows_at(n_features, d)
            &&& choices(n_features + degree, degree) <= 100_001
        },
{
}

/// A `terms_fault` names what is wrong, and what is tested just before it was in order.
pub proof fn terms_faults_are_true(n_features: nat, degree: nat)
    ensures
        match terms_fault(n_features, degree) {
            Some(PolynomialError::NoFeature) => n_features == 0,
            Some(PolynomialError::NoDegree) => n_features != 0 && degree == 0,
            Some(PolynomialError::CountOverflow) => degree != 0 && exists|d: nat| 1 <= d <= degree
                && #[trigger] overflows_at(n_features, d),
            Some(PolynomialError::TooManyTerms { count: got_count }) => !(exists|d: nat| 1 <= d <=
                degree && #[trigger] overflows_at(n_features, d)) && term_count(n_features,
                degree) > MAX_POLYNOMIAL_TERMS && got_count == term_count(n_features, degree) as
                u128,
            _ => true,
        },
{
}

/// A `size_fault` names what is wrong, and what is tested just before it was in order.
pub proof fn size_faults_are_true(n_rows: nat, n_terms: nat)
    ensures
        ({
            let cells = n_rows * (n_terms + 1);
            match size_fault(n_rows, n_terms) {
                Some(PolynomialError::SizeOverflow) => cells > usize::MAX,
                Some(PolynomialError::TooManyCells { cells: got_cells }) => cells <= usize::MAX &&
                    cells > MAX_POLYNOMIAL_DESIGN_CELLS && got_cells == cells as usize,
                _ => true,
            }
        }),
{
}

/// A polynomial that is accepted has no more than a hundred thousand terms.
pub proof fn accepted_polynomials_have_few_terms(n_features: nat, degree: nat)
    requires
        terms_fault(n_features, degree) is None,
    ensures
        n_features > 0,
        degree > 0,
        term_count(n_features, degree) <= 100_000,
{
}

/// The terms of a list are taken in its order.
pub proof fn terms_are_taken_in_order(terms: Seq<Vec<usize>>, i: int)
    requires
        0 <= i < terms.len(),
    ensures
        term_views(terms).len() == terms.len(),
        term_views(terms)[i] == terms[i]@,
{
}

} // verus!
