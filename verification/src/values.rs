use vstd::prelude::*;

verus! {

/// How two field values are judged: whether they agree within a tolerance,
/// and the text of their difference.
pub struct Judge {
    pub agrees: spec_fn(Seq<char>, Seq<char>, int) -> bool,
    pub diffs: spec_fn(Seq<char>, Seq<char>) -> Seq<char>,
}

pub open spec fn option_text(o: Option<String>) -> Option<Seq<char>> {
    match o {
        Some(s) => Some(s@),
        None => None,
    }
}

/// What `within` answers for two texts and a tolerance: whether both read
/// as numbers that differ by at most the tolerance, or `None` when one of
/// them does not read as a number.
pub open spec fn numeric_agreement<W: Fn(&str, &str, i32) -> Option<bool>>(
    within: W,
    a: Seq<char>,
    b: Seq<char>,
    t: int,
) -> Option<bool> {
    let (x, y, r) = choose|x: &str, y: &str, r: Option<bool>|
        #![trigger call_ensures(within, (x, y, t as i32), r)]
        x@ == a && y@ == b && call_ensures(within, (x, y, t as i32), r);
    r
}

/// What `difference` answers for two texts: the text of the first number
/// minus the second, or `None` when one of them does not read as a number.
pub open spec fn numeric_difference<N: Fn(&str, &str) -> Option<String>>(
    difference: N,
    a: Seq<char>,
    b: Seq<char>,
) -> Option<Seq<char>> {
    let (x, y, r) = choose|x: &str, y: &str, r: Option<String>|
        #![trigger call_ensures(difference, (x, y), r)]
        x@ == a && y@ == b && call_ensures(difference, (x, y), r);
    option_text(r)
}

/// `within` can be asked anything, and its answer depends only on the texts
/// and the tolerance.
pub open spec fn within_ok<W: Fn(&str, &str, i32) -> Option<bool>>(within: W) -> bool {
    &&& forall|x: &str, y: &str, t: i32| #[trigger] within.requires((x, y, t))
    &&& forall|x1: &str, y1: &str, x2: &str, y2: &str, t: i32, r1: Option<bool>, r2: Option<bool>|
        #![trigger call_ensures(within, (x1, y1, t), r1), call_ensures(within, (x2, y2, t), r2)]
        call_ensures(within, (x1, y1, t), r1) && call_ensures(within, (x2, y2, t), r2) && x1@ == x2@
            && y1@ == y2@ ==> r1 == r2
}

/// `difference` can be asked anything, and its answer depends only on the
/// texts.
pub open spec fn difference_ok<N: Fn(&str, &str) -> Option<String>>(difference: N) -> bool {
    &&& forall|x: &str, y: &str| #[trigger] difference.requires((x, y))
    &&& forall|x1: &str, y1: &str, x2: &str, y2: &str, r1: Option<String>, r2: Option<String>|
        #![trigger call_ensures(difference, (x1, y1), r1), call_ensures(difference, (x2, y2), r2)]
        call_ensures(difference, (x1, y1), r1) && call_ensures(difference, (x2, y2), r2) && x1@
            == x2@ && y1@ == y2@ ==> option_text(r1) == option_text(r2)
}

/// Whether two field values agree: with tolerance 0 the texts must be
/// equal; otherwise, when both read as numbers, as `within` says, and when
/// either does not, the texts must be equal.
pub open spec fn values_agree<W: Fn(&str, &str, i32) -> Option<bool>>(
    within: W,
    a: Seq<char>,
    b: Seq<char>,
    t: int,
) -> bool {
    if t == 0 {
        a == b
    } else {
        match numeric_agreement(within, a, b, t) {
            Some(v) => v,
            None => a == b,
        }
    }
}

/// The difference of two field values as `difference` writes it, or the
/// empty text when either does not read as a number.
pub open spec fn diff_text<N: Fn(&str, &str) -> Option<String>>(
    difference: N,
    a: Seq<char>,
    b: Seq<char>,
) -> Seq<char> {
    match numeric_difference(difference, a, b) {
        Some(s) => s,
        None => Seq::empty(),
    }
}

/// The judge that `within` and `difference` make.
pub open spec fn judge_of<W: Fn(&str, &str, i32) -> Option<bool>, N: Fn(&str, &str) -> Option<String>>(
    within: W,
    difference: N,
) -> Judge {
    Judge {
        agrees: |a: Seq<char>, b: Seq<char>, t: int| values_agree(within, a, b, t),
        diffs: |a: Seq<char>, b: Seq<char>| diff_text(difference, a, b),
    }
}

/// Whether two values agree within `tolerance` (see `values_agree`); the
/// numbers are compared by `within`.
pub fn values_match<W: Fn(&str, &str, i32) -> Option<bool>>(
    mjs_val: &str,
    other_val: &str,
    tolerance: i32,
    within: &W,
) -> (r: bool)
    requires
        within_ok(*within),
    ensures
        r == values_agree(*within, mjs_val@, other_val@, tolerance as int),
{
    if tolerance == 0 {
        return mjs_val.to_owned() == other_val.to_owned();
    }
    assert(within.requires((mjs_val, other_val, tolerance)));
    let answer = within(mjs_val, other_val, tolerance);
    proof {
        assert(call_ensures(*within, (mjs_val, other_val, tolerance), answer));
        assert((tolerance as int) as i32 == tolerance);
        let (x, y, q) = choose|x: &str, y: &str, q: Option<bool>|
            x@ == mjs_val@ && y@ == other_val@ && call_ensures(*within, (x, y, tolerance), q);
        assert(call_ensures(*within, (x, y, tolerance), q));
    }
    match answer {
        Some(v) => v,
        None => mjs_val.to_owned() == other_val.to_owned(),
    }
}

/// The difference `mjs_val - other_val` as `difference` writes it, or the
/// empty text when either value is not a number (see `diff_text`).
pub fn compute_diff<N: Fn(&str, &str) -> Option<String>>(
    mjs_val: &str,
    other_val: &str,
    difference: &N,
) -> (r: String)
    requires
        difference_ok(*difference),
    ensures
        r@ == diff_text(*difference, mjs_val@, other_val@),
{
    assert(difference.requires((mjs_val, other_val)));
    let answer = difference(mjs_val, other_val);
    proof {
        assert(call_ensures(*difference, (mjs_val, other_val), answer));
        let (x, y, q) = choose|x: &str, y: &str, q: Option<String>|
            x@ == mjs_val@ && y@ == other_val@ && call_ensures(*difference, (x, y), q);
        assert(call_ensures(*difference, (x, y), q));
    }
    match answer {
        Some(s) => s,
        None => String::new(),
    }
}

/// With tolerance 0, two values agree exactly when their texts are equal,
/// whatever reads them as numbers.
pub proof fn law_exact_at_zero_tolerance<W: Fn(&str, &str, i32) -> Option<bool>>(
    within: W,
    a: Seq<char>,
    b: Seq<char>,
)
    ensures
        values_agree(within, a, b, 0) == (a == b),
{
}

/// Values that do not both read as numbers agree exactly when their texts
/// are equal, and their difference is the empty text.
pub proof fn law_text_fallback<W: Fn(&str, &str, i32) -> Option<bool>, N: Fn(&str, &str) -> Option<String>>(
    within: W,
    difference: N,
    a: Seq<char>,
    b: Seq<char>,
    t: int,
)
    ensures
        numeric_agreement(within, a, b, t) is None ==> values_agree(within, a, b, t) == (a == b),
        numeric_difference(difference, a, b) is None ==> diff_text(difference, a, b) == Seq::<char>::empty(),
{
}

} // verus!
