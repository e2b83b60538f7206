//! Persistence codec: the working state serialized into one string of
//! characters, with a proved round trip.
//!
//! Layout: a number is twenty decimal digits; a string is its length
//! followed by its characters; a list is its length followed by its
//! items; the state is categories, students, the mode flag and the
//! optional stored assignment.

use vstd::prelude::*;
use vstd::arithmetic::div_mod::lemma_breakdown;
use vstd::arithmetic::div_mod::lemma_small_mod;

verus! {

/// The character of one decimal digit.
pub open spec fn digit_char(d: int) -> char {
    if d == 0 {
        '0'
    } else if d == 1 {
        '1'
    } else if d == 2 {
        '2'
    } else if d == 3 {
        '3'
    } else if d == 4 {
        '4'
    } else if d == 5 {
        '5'
    } else if d == 6 {
        '6'
    } else if d == 7 {
        '7'
    } else if d == 8 {
        '8'
    } else {
        '9'
    }
}

/// The value of one digit character, and -1 for any other character.
pub open spec fn char_digit(c: char) -> int {
    if c == '0' {
        0
    } else if c == '1' {
        1
    } else if c == '2' {
        2
    } else if c == '3' {
        3
    } else if c == '4' {
        4
    } else if c == '5' {
        5
    } else if c == '6' {
        6
    } else if c == '7' {
        7
    } else if c == '8' {
        8
    } else if c == '9' {
        9
    } else {
        -1
    }
}

pub open spec fn pow10(w: nat) -> nat
    decreases w,
{
    if w == 0 {
        1
    } else {
        10 * pow10((w - 1) as nat)
    }
}

/// `n` written as exactly `w` decimal digits, most significant first.
pub open spec fn spec_enc_nat_width(n: nat, w: nat) -> Seq<char>
    decreases w,
{
    if w == 0 {
        Seq::empty()
    } else {
        spec_enc_nat_width(n / 10, (w - 1) as nat).push(digit_char((n % 10) as int))
    }
}

/// A number is encoded as twenty digits: enough for any usize.
pub open spec fn spec_enc_nat(n: nat) -> Seq<char> {
    spec_enc_nat_width(n, 20)
}

/// The value of a digit string, most significant first.
pub open spec fn digits_val(s: Seq<char>) -> int
    decreases s.len(),
{
    if s.len() == 0 {
        0
    } else {
        digits_val(s.drop_last()) * 10 + char_digit(s.last())
    }
}

pub open spec fn all_digits(s: Seq<char>) -> bool {
    forall|k: int| 0 <= k < s.len() ==> char_digit(#[trigger] s[k]) >= 0
}

/// Decode a number at position `p`: twenty digits whose value fits a
/// usize.
pub open spec fn spec_dec_nat(s: Seq<char>, p: int) -> Option<(nat, int)> {
    if 0 <= p && p + 20 <= s.len() && all_digits(s.subrange(p, p + 20)) && digits_val(
        s.subrange(p, p + 20),
    ) <= usize::MAX as int {
        Some((digits_val(s.subrange(p, p + 20)) as nat, p + 20))
    } else {
        None
    }
}

pub proof fn lemma_pow10_pos(w: nat)
    ensures
        pow10(w) >= 1,
    decreases w,
{
    if w > 0 {
        lemma_pow10_pos((w - 1) as nat);
    }
}

/// Twenty digits hold any usize.
pub proof fn lemma_pow10_over_usize()
    ensures
        pow10(20) > usize::MAX as nat,
{
    reveal_with_fuel(pow10, 21);
    assert(pow10(20) == 100000000000000000000nat);
    assert(usize::MAX as nat <= 18446744073709551615nat);
}

/// A digit string's value is bounded by the width's power of ten.
pub proof fn lemma_digits_val_bound(s: Seq<char>)
    requires
        all_digits(s),
    ensures
        0 <= digits_val(s) < pow10(s.len()),
    decreases s.len(),
{
    if s.len() == 0 {
    } else {
        let dl = s.drop_last();
        assert forall|k: int| 0 <= k < dl.len() implies char_digit(#[trigger] dl[k]) >= 0 by {
            assert(dl[k] == s[k]);
        }
        lemma_digits_val_bound(dl);
        assert(char_digit(s.last()) >= 0);
        assert(char_digit(s.last()) <= 9);
        assert(pow10(s.len()) == 10 * pow10((s.len() - 1) as nat));
    }
}

/// Encoding yields exactly `w` digits whose value is `n` modulo the
/// width's power of ten.
pub proof fn lemma_enc_nat_width(n: nat, w: nat)
    ensures
        spec_enc_nat_width(n, w).len() == w,
        all_digits(spec_enc_nat_width(n, w)),
        digits_val(spec_enc_nat_width(n, w)) == (n as int) % (pow10(w) as int),
    decreases w,
{
    if w == 0 {
    } else {
        lemma_enc_nat_width(n / 10, (w - 1) as nat);
        let e = spec_enc_nat_width(n, w);
        let ep = spec_enc_nat_width(n / 10, (w - 1) as nat);
        let d = digit_char((n % 10) as int);
        assert(e == ep.push(d));
        assert(e.drop_last() =~= ep);
        assert(e.last() == d);
        assert(char_digit(d) == n % 10);
        assert forall|k: int| 0 <= k < e.len() implies char_digit(#[trigger] e[k]) >= 0 by {
            if k < e.len() - 1 {
                assert(e[k] == ep[k]);
            }
        }
        lemma_pow10_pos((w - 1) as nat);
        lemma_breakdown(n as int, 10, pow10((w - 1) as nat) as int);
        assert(pow10(w) == 10 * pow10((w - 1) as nat));
        assert(digits_val(e) == digits_val(ep) * 10 + (n % 10));
        assert(digits_val(ep) == ((n / 10) as int) % (pow10((w - 1) as nat) as int));
        assert((n as int) % ((pow10(w)) as int) == 10 * (((n as int) / 10) % (pow10(
            (w - 1) as nat,
        ) as int)) + (n as int) % 10);
    }
}

/// A window that holds the concatenation of two pieces splits into a
/// window for each.
pub proof fn lemma_subrange_split(s: Seq<char>, p: int, x: Seq<char>, y: Seq<char>)
    requires
        0 <= p,
        p + x.len() + y.len() <= s.len(),
        s.subrange(p, p + x.len() + y.len()) == x + y,
    ensures
        s.subrange(p, p + x.len()) == x,
        s.subrange(p + x.len(), p + x.len() + y.len()) == y,
{
    let whole = s.subrange(p, p + x.len() + y.len());
    assert forall|k: int| 0 <= k < x.len() implies s.subrange(p, p + x.len())[k] == x[k] by {
        assert(whole[k] == (x + y)[k]);
        assert(s.subrange(p, p + x.len())[k] == s[p + k]);
        assert(whole[k] == s[p + k]);
    }
    assert(s.subrange(p, p + x.len()) =~= x);
    assert forall|k: int| 0 <= k < y.len() implies s.subrange(
        p + x.len(),
        p + x.len() + y.len(),
    )[k] == y[k] by {
        assert(whole[x.len() + k] == (x + y)[x.len() + k]);
        assert(s.subrange(p + x.len(), p + x.len() + y.len())[k] == s[p + x.len() + k]);
        assert(whole[x.len() + k] == s[p + x.len() + k]);
    }
    assert(s.subrange(p + x.len(), p + x.len() + y.len()) =~= y);
}

/// Decoding an encoded number inside any surrounding text yields the
/// number.
pub proof fn lemma_dec_enc_nat(s: Seq<char>, p: int, n: nat)
    requires
        n <= usize::MAX as nat,
        0 <= p,
        p + 20 <= s.len(),
        s.subrange(p, p + 20) == spec_enc_nat(n),
    ensures
        spec_dec_nat(s, p) == Some((n, p + 20)),
{
    lemma_enc_nat_width(n, 20);
    lemma_pow10_over_usize();
    lemma_pow10_pos(20);
    lemma_small_mod(n, pow10(20));
    assert(digits_val(s.subrange(p, p + 20)) == n);
}

/// A string is its length followed by its characters.
pub open spec fn spec_enc_str(t: Seq<char>) -> Seq<char> {
    spec_enc_nat(t.len()) + t
}

pub open spec fn spec_dec_str(s: Seq<char>, p: int) -> Option<(Seq<char>, int)> {
    match spec_dec_nat(s, p) {
        Some((n, p2)) => if p2 + n <= s.len() {
            Some((s.subrange(p2, p2 + n), p2 + n))
        } else {
            None
        },
        None => None,
    }
}

pub open spec fn spec_enc_bool(b: bool) -> Seq<char> {
    if b {
        seq!['1']
    } else {
        seq!['0']
    }
}

pub open spec fn spec_dec_bool(s: Seq<char>, p: int) -> Option<(bool, int)> {
    if 0 <= p < s.len() && (s[p] == '1' || s[p] == '0') {
        Some((s[p] == '1', p + 1))
    } else {
        None
    }
}

pub open spec fn spec_enc_cat(c: crate::model::CategoryView) -> Seq<char> {
    spec_enc_str(c.name) + spec_enc_nat(c.max_placements)
}

pub open spec fn spec_dec_cat(s: Seq<char>, p: int) -> Option<(crate::model::CategoryView, int)> {
    match spec_dec_str(s, p) {
        Some((name, p2)) => match spec_dec_nat(s, p2) {
            Some((m, p3)) => Some((crate::model::CategoryView { name, max_placements: m }, p3)),
            None => None,
        },
        None => None,
    }
}

pub open spec fn spec_enc_cats(items: Seq<crate::model::CategoryView>) -> Seq<char>
    decreases items.len(),
{
    if items.len() == 0 {
        Seq::empty()
    } else {
        spec_enc_cat(items[0]) + spec_enc_cats(items.drop_first())
    }
}

/// A category list is its length followed by its items.
pub open spec fn spec_enc_cat_list(items: Seq<crate::model::CategoryView>) -> Seq<char> {
    spec_enc_nat(items.len()) + spec_enc_cats(items)
}

pub open spec fn spec_dec_cats(s: Seq<char>, p: int, n: nat) -> Option<(
    Seq<crate::model::CategoryView>,
    int,
)>
    decreases n,
{
    if n == 0 {
        Some((Seq::empty(), p))
    } else {
        match spec_dec_cat(s, p) {
            Some((c, p2)) => match spec_dec_cats(s, p2, (n - 1) as nat) {
                Some((rest, p3)) => Some((seq![c] + rest, p3)),
                None => None,
            },
            None => None,
        }
    }
}

pub open spec fn spec_dec_cat_list(s: Seq<char>, p: int) -> Option<(
    Seq<crate::model::CategoryView>,
    int,
)> {
    match spec_dec_nat(s, p) {
        Some((n, p2)) => spec_dec_cats(s, p2, n),
        None => None,
    }
}

/// The machine bounds under which a value can be serialized at all.
pub open spec fn cat_bounded(c: crate::model::CategoryView) -> bool {
    c.name.len() <= usize::MAX as nat && c.max_placements <= usize::MAX as nat
}

pub open spec fn cats_bounded(items: Seq<crate::model::CategoryView>) -> bool {
    items.len() <= usize::MAX as nat && forall|k: int|
        0 <= k < items.len() ==> cat_bounded(#[trigger] items[k])
}

pub proof fn lemma_dec_enc_str(s: Seq<char>, p: int, t: Seq<char>)
    requires
        t.len() <= usize::MAX as nat,
        0 <= p,
        p + spec_enc_str(t).len() <= s.len(),
        s.subrange(p, p + spec_enc_str(t).len()) == spec_enc_str(t),
    ensures
        spec_dec_str(s, p) == Some((t, p + spec_enc_str(t).len())),
{
    lemma_enc_nat_width(t.len(), 20);
    lemma_subrange_split(s, p, spec_enc_nat(t.len()), t);
    lemma_dec_enc_nat(s, p, t.len());
}

pub proof fn lemma_dec_enc_bool(s: Seq<char>, p: int, b: bool)
    requires
        0 <= p,
        p + 1 <= s.len(),
        s.subrange(p, p + 1) == spec_enc_bool(b),
    ensures
        spec_dec_bool(s, p) == Some((b, p + 1)),
{
    assert(s[p] == s.subrange(p, p + 1)[0]);
}

pub proof fn lemma_dec_enc_cat(s: Seq<char>, p: int, c: crate::model::CategoryView)
    requires
        cat_bounded(c),
        0 <= p,
        p + spec_enc_cat(c).len() <= s.len(),
        s.subrange(p, p + spec_enc_cat(c).len()) == spec_enc_cat(c),
    ensures
        spec_dec_cat(s, p) == Some((c, p + spec_enc_cat(c).len())),
{
    lemma_subrange_split(s, p, spec_enc_str(c.name), spec_enc_nat(c.max_placements));
    lemma_dec_enc_str(s, p, c.name);
    lemma_enc_nat_width(c.max_placements, 20);
    lemma_dec_enc_nat(s, p + spec_enc_str(c.name).len(), c.max_placements);
    assert((crate::model::CategoryView { name: c.name, max_placements: c.max_placements }) =~= c);
}

pub proof fn lemma_dec_enc_cats(s: Seq<char>, p: int, items: Seq<crate::model::CategoryView>)
    requires
        cats_bounded(items),
        0 <= p,
        p + spec_enc_cats(items).len() <= s.len(),
        s.subrange(p, p + spec_enc_cats(items).len()) == spec_enc_cats(items),
    ensures
        spec_dec_cats(s, p, items.len()) == Some((items, p + spec_enc_cats(items).len())),
    decreases items.len(),
{
    if items.len() == 0 {
        assert(items =~= Seq::<crate::model::CategoryView>::empty());
    } else {
        let h = items[0];
        let rest = items.drop_first();
        assert(spec_enc_cats(items) == spec_enc_cat(h) + spec_enc_cats(rest));
        lemma_subrange_split(s, p, spec_enc_cat(h), spec_enc_cats(rest));
        assert(cat_bounded(items[0]));
        lemma_dec_enc_cat(s, p, h);
        assert forall|k: int| 0 <= k < rest.len() implies cat_bounded(#[trigger] rest[k]) by {
            assert(rest[k] == items[k + 1]);
        }
        lemma_dec_enc_cats(s, p + spec_enc_cat(h).len(), rest);
        assert(seq![h] + rest =~= items);
    }
}

pub proof fn lemma_dec_enc_cat_list(s: Seq<char>, p: int, items: Seq<crate::model::CategoryView>)
    requires
        cats_bounded(items),
        0 <= p,
        p + spec_enc_cat_list(items).len() <= s.len(),
        s.subrange(p, p + spec_enc_cat_list(items).len()) == spec_enc_cat_list(items),
    ensures
        spec_dec_cat_list(s, p) == Some((items, p + spec_enc_cat_list(items).len())),
{
    lemma_enc_nat_width(items.len(), 20);
    lemma_subrange_split(s, p, spec_enc_nat(items.len()), spec_enc_cats(items));
    lemma_dec_enc_nat(s, p, items.len());
    lemma_dec_enc_cats(s, p + 20, items);
}

pub open spec fn spec_enc_student(v: crate::model::StudentView) -> Seq<char> {
    spec_enc_str(v.name) + spec_enc_cat_list(v.preferences) + spec_enc_cat_list(v.exclude)
}

pub open spec fn spec_dec_student(s: Seq<char>, p: int) -> Option<(crate::model::StudentView, int)> {
    match spec_dec_str(s, p) {
        Some((name, p2)) => match spec_dec_cat_list(s, p2) {
            Some((preferences, p3)) => match spec_dec_cat_list(s, p3) {
                Some((exclude, p4)) => Some(
                    (crate::model::StudentView { name, preferences, exclude }, p4),
                ),
                None => None,
            },
            None => None,
        },
        None => None,
    }
}

pub open spec fn spec_enc_students(items: Seq<crate::model::StudentView>) -> Seq<char>
    decreases items.len(),
{
    if items.len() == 0 {
        Seq::empty()
    } else {
        spec_enc_student(items[0]) + spec_enc_students(items.drop_first())
    }
}

/// A student list is its length followed by its items.
pub open spec fn spec_enc_student_list(items: Seq<crate::model::StudentView>) -> Seq<char> {
    spec_enc_nat(items.len()) + spec_enc_students(items)
}

pub open spec fn spec_dec_students(s: Seq<char>, p: int, n: nat) -> Option<(
    Seq<crate::model::StudentView>,
    int,
)>
    decreases n,
{
    if n == 0 {
        Some((Seq::empty(), p))
    } else {
        match spec_dec_student(s, p) {
            Some((v, p2)) => match spec_dec_students(s, p2, (n - 1) as nat) {
                Some((rest, p3)) => Some((seq![v] + rest, p3)),
                None => None,
            },
            None => None,
        }
    }
}

pub open spec fn spec_dec_student_list(s: Seq<char>, p: int) -> Option<(
    Seq<crate::model::StudentView>,
    int,
)> {
    match spec_dec_nat(s, p) {
        Some((n, p2)) => spec_dec_students(s, p2, n),
        None => None,
    }
}

pub open spec fn spec_enc_placement(v: crate::model::PlacementView) -> Seq<char> {
    spec_enc_str(v.category_name) + spec_enc_student_list(v.students)
}

pub open spec fn spec_dec_placement(s: Seq<char>, p: int) -> Option<(
    crate::model::PlacementView,
    int,
)> {
    match spec_dec_str(s, p) {
        Some((category_name, p2)) => match spec_dec_student_list(s, p2) {
            Some((students, p3)) => Some(
                (crate::model::PlacementView { category_name, students }, p3),
            ),
            None => None,
        },
        None => None,
    }
}

pub open spec fn spec_enc_placements(items: Seq<crate::model::PlacementView>) -> Seq<char>
    decreases items.len(),
{
    if items.len() == 0 {
        Seq::empty()
    } else {
        spec_enc_placement(items[0]) + spec_enc_placements(items.drop_first())
    }
}

/// A placement list is its length followed by its items.
pub open spec fn spec_enc_placement_list(items: Seq<crate::model::PlacementView>) -> Seq<char> {
    spec_enc_nat(items.len()) + spec_enc_placements(items)
}

pub open spec fn spec_dec_placements(s: Seq<char>, p: int, n: nat) -> Option<(
    Seq<crate::model::PlacementView>,
    int,
)>
    decreases n,
{
    if n == 0 {
        Some((Seq::empty(), p))
    } else {
        match spec_dec_placement(s, p) {
            Some((v, p2)) => match spec_dec_placements(s, p2, (n - 1) as nat) {
                Some((rest, p3)) => Some((seq![v] + rest, p3)),
                None => None,
            },
            None => None,
        }
    }
}

pub open spec fn spec_dec_placement_list(s: Seq<char>, p: int) -> Option<(
    Seq<crate::model::PlacementView>,
    int,
)> {
    match spec_dec_nat(s, p) {
        Some((n, p2)) => spec_dec_placements(s, p2, n),
        None => None,
    }
}

pub open spec fn spec_enc_result(v: crate::model::AssignmentResultView) -> Seq<char> {
    spec_enc_placement_list(v.placed) + spec_enc_student_list(v.not_placable)
}

pub open spec fn spec_dec_result(s: Seq<char>, p: int) -> Option<(
    crate::model::AssignmentResultView,
    int,
)> {
    match spec_dec_placement_list(s, p) {
        Some((placed, p2)) => match spec_dec_student_list(s, p2) {
            Some((not_placable, p3)) => Some(
                (crate::model::AssignmentResultView { placed, not_placable }, p3),
            ),
            None => None,
        },
        None => None,
    }
}

/// An optional stored assignment: a presence flag, then the assignment.
pub open spec fn spec_enc_opt_result(o: Option<crate::model::AssignmentResultView>) -> Seq<char> {
    match o {
        None => spec_enc_bool(false),
        Some(r) => spec_enc_bool(true) + spec_enc_result(r),
    }
}

pub open spec fn spec_dec_opt_result(s: Seq<char>, p: int) -> Option<(
    Option<crate::model::AssignmentResultView>,
    int,
)> {
    match spec_dec_bool(s, p) {
        Some((flag, p2)) => if flag {
            match spec_dec_result(s, p2) {
                Some((r, p3)) => Some((Some(r), p3)),
                None => None,
            }
        } else {
            Some((None, p2))
        },
        None => None,
    }
}

/// The whole working state: categories, students, the mode flag and the
/// optional stored assignment.
pub open spec fn spec_enc_state(v: crate::model::WorkingStateView) -> Seq<char> {
    spec_enc_cat_list(v.categories) + spec_enc_student_list(v.students) + spec_enc_bool(
        v.multi_match_mode,
    ) + spec_enc_opt_result(v.result)
}

pub open spec fn spec_dec_state(s: Seq<char>, p: int) -> Option<(
    crate::model::WorkingStateView,
    int,
)> {
    match spec_dec_cat_list(s, p) {
        Some((categories, p2)) => match spec_dec_student_list(s, p2) {
            Some((students, p3)) => match spec_dec_bool(s, p3) {
                Some((multi_match_mode, p4)) => match spec_dec_opt_result(s, p4) {
                    Some((result, p5)) => Some(
                        (
                            crate::model::WorkingStateView {
                                categories,
                                students,
                                multi_match_mode,
                                result,
                            },
                            p5,
                        ),
                    ),
                    None => None,
                },
                None => None,
            },
            None => None,
        },
        None => None,
    }
}

pub open spec fn student_bounded(v: crate::model::StudentView) -> bool {
    v.name.len() <= usize::MAX as nat && cats_bounded(v.preferences) && cats_bounded(v.exclude)
}

pub open spec fn students_bounded(items: Seq<crate::model::StudentView>) -> bool {
    items.len() <= usize::MAX as nat && forall|k: int|
        0 <= k < items.len() ==> student_bounded(#[trigger] items[k])
}

pub open spec fn placement_bounded(v: crate::model::PlacementView) -> bool {
    v.category_name.len() <= usize::MAX as nat && students_bounded(v.students)
}

pub open spec fn placements_bounded(items: Seq<crate::model::PlacementView>) -> bool {
    items.len() <= usize::MAX as nat && forall|k: int|
        0 <= k < items.len() ==> placement_bounded(#[trigger] items[k])
}

pub open spec fn result_bounded(v: crate::model::AssignmentResultView) -> bool {
    placements_bounded(v.placed) && students_bounded(v.not_placable)
}

/// The machine bounds every working state held in memory satisfies.
pub open spec fn encodable(v: crate::model::WorkingStateView) -> bool {
    &&& cats_bounded(v.categories)
    &&& students_bounded(v.students)
    &&& (v.result matches Some(r) ==> result_bounded(r))
}

pub proof fn lemma_dec_enc_student(s: Seq<char>, p: int, v: crate::model::StudentView)
    requires
        student_bounded(v),
        0 <= p,
        p + spec_enc_student(v).len() <= s.len(),
        s.subrange(p, p + spec_enc_student(v).len()) == spec_enc_student(v),
    ensures
        spec_dec_student(s, p) == Some((v, p + spec_enc_student(v).len())),
{
    let a = spec_enc_str(v.name);
    let b = spec_enc_cat_list(v.preferences);
    let c = spec_enc_cat_list(v.exclude);
    assert(spec_enc_student(v) =~= a + (b + c));
    lemma_subrange_split(s, p, a, b + c);
    lemma_subrange_split(s, p + a.len(), b, c);
    lemma_dec_enc_str(s, p, v.name);
    lemma_dec_enc_cat_list(s, p + a.len(), v.preferences);
    lemma_dec_enc_cat_list(s, p + a.len() + b.len(), v.exclude);
    assert((crate::model::StudentView {
        name: v.name,
        preferences: v.preferences,
        exclude: v.exclude,
    }) =~= v);
}

pub proof fn lemma_dec_enc_students(s: Seq<char>, p: int, items: Seq<crate::model::StudentView>)
    requires
        students_bounded(items),
        0 <= p,
        p + spec_enc_students(items).len() <= s.len(),
        s.subrange(p, p + spec_enc_students(items).len()) == spec_enc_students(items),
    ensures
        spec_dec_students(s, p, items.len()) == Some((items, p + spec_enc_students(items).len())),
    decreases items.len(),
{
    if items.len() == 0 {
        assert(items =~= Seq::<crate::model::StudentView>::empty());
    } else {
        let h = items[0];
        let rest = items.drop_first();
        assert(spec_enc_students(items) == spec_enc_student(h) + spec_enc_students(rest));
        lemma_subrange_split(s, p, spec_enc_student(h), spec_enc_students(rest));
        assert(student_bounded(items[0]));
        lemma_dec_enc_student(s, p, h);
        assert forall|k: int| 0 <= k < rest.len() implies student_bounded(#[trigger] rest[k]) by {
            assert(rest[k] == items[k + 1]);
        }
        lemma_dec_enc_students(s, p + spec_enc_student(h).len(), rest);
        assert(seq![h] + rest =~= items);
    }
}

pub proof fn lemma_dec_enc_student_list(s: Seq<char>, p: int, items: Seq<crate::model::StudentView>)
    requires
        students_bounded(items),
        0 <= p,
        p + spec_enc_student_list(items).len() <= s.len(),
        s.subrange(p, p + spec_enc_student_list(items).len()) == spec_enc_student_list(items),
    ensures
        spec_dec_student_list(s, p) == Some((items, p + spec_enc_student_list(items).len())),
{
    lemma_enc_nat_width(items.len(), 20);
    lemma_subrange_split(s, p, spec_enc_nat(items.len()), spec_enc_students(items));
    lemma_dec_enc_nat(s, p, items.len());
    lemma_dec_enc_students(s, p + 20, items);
}

pub proof fn lemma_dec_enc_placement(s: Seq<char>, p: int, v: crate::model::PlacementView)
    requires
        placement_bounded(v),
        0 <= p,
        p + spec_enc_placement(v).len() <= s.len(),
        s.subrange(p, p + spec_enc_placement(v).len()) == spec_enc_placement(v),
    ensures
        spec_dec_placement(s, p) == Some((v, p + spec_enc_placement(v).len())),
{
    let a = spec_enc_str(v.category_name);
    let b = spec_enc_student_list(v.students);
    lemma_subrange_split(s, p, a, b);
    lemma_dec_enc_str(s, p, v.category_name);
    lemma_dec_enc_student_list(s, p + a.len(), v.students);
    assert((crate::model::PlacementView { category_name: v.category_name, students: v.students })
        =~= v);
}

#[verifier::rlimit(50)]
pub proof fn lemma_dec_enc_placements(s: Seq<char>, p: int, items: Seq<crate::model::PlacementView>)
    requires
        placements_bounded(items),
        0 <= p,
        p + spec_enc_placements(items).len() <= s.len(),
        s.subrange(p, p + spec_enc_placements(items).len()) == spec_enc_placements(items),
    ensures
        spec_dec_placements(s, p, items.len()) == Some(
            (items, p + spec_enc_placements(items).len()),
        ),
    decreases items.len(),
{
    if items.len() == 0 {
        assert(items =~= Seq::<crate::model::PlacementView>::empty());
    } else {
        let h = items[0];
        let rest = items.drop_first();
        assert(spec_enc_placements(items) == spec_enc_placement(h) + spec_enc_placements(rest));
        lemma_subrange_split(s, p, spec_enc_placement(h), spec_enc_placements(rest));
        assert(placement_bounded(items[0]));
        lemma_dec_enc_placement(s, p, h);
        assert forall|k: int| 0 <= k < rest.len() implies placement_bounded(
            #[trigger] rest[k],
        ) by {
            assert(rest[k] == items[k + 1]);
        }
        lemma_dec_enc_placements(s, p + spec_enc_placement(h).len(), rest);
        assert(seq![h] + rest =~= items);
    }
}

pub proof fn lemma_dec_enc_placement_list(
    s: Seq<char>,
    p: int,
    items: Seq<crate::model::PlacementView>,
)
    requires
        placements_bounded(items),
        0 <= p,
        p + spec_enc_placement_list(items).len() <= s.len(),
        s.subrange(p, p + spec_enc_placement_list(items).len()) == spec_enc_placement_list(items),
    ensures
        spec_dec_placement_list(s, p) == Some((items, p + spec_enc_placement_list(items).len())),
{
    lemma_enc_nat_width(items.len(), 20);
    lemma_subrange_split(s, p, spec_enc_nat(items.len()), spec_enc_placements(items));
    lemma_dec_enc_nat(s, p, items.len());
    lemma_dec_enc_placements(s, p + 20, items);
}

pub proof fn lemma_dec_enc_result(s: Seq<char>, p: int, v: crate::model::AssignmentResultView)
    requires
        result_bounded(v),
        0 <= p,
        p + spec_enc_result(v).len() <= s.len(),
        s.subrange(p, p + spec_enc_result(v).len()) == spec_enc_result(v),
    ensures
        spec_dec_result(s, p) == Some((v, p + spec_enc_result(v).len())),
{
    let a = spec_enc_placement_list(v.placed);
    let b = spec_enc_student_list(v.not_placable);
    lemma_subrange_split(s, p, a, b);
    lemma_dec_enc_placement_list(s, p, v.placed);
    lemma_dec_enc_student_list(s, p + a.len(), v.not_placable);
    assert((crate::model::AssignmentResultView { placed: v.placed, not_placable: v.not_placable })
        =~= v);
}

pub proof fn lemma_dec_enc_opt_result(
    s: Seq<char>,
    p: int,
    o: Option<crate::model::AssignmentResultView>,
)
    requires
        o matches Some(r) ==> result_bounded(r),
        0 <= p,
        p + spec_enc_opt_result(o).len() <= s.len(),
        s.subrange(p, p + spec_enc_opt_result(o).len()) == spec_enc_opt_result(o),
    ensures
        spec_dec_opt_result(s, p) == Some((o, p + spec_enc_opt_result(o).len())),
{
    match o {
        None => {
            lemma_dec_enc_bool(s, p, false);
        },
        Some(r) => {
            lemma_subrange_split(s, p, spec_enc_bool(true), spec_enc_result(r));
            lemma_dec_enc_bool(s, p, true);
            lemma_dec_enc_result(s, p + 1, r);
        },
    }
}

/// The round trip at the heart of persistence: decoding an encoded
/// working state yields exactly that state, consuming the whole text.
#[verifier::rlimit(100)]
pub proof fn lemma_dec_enc_state(s: Seq<char>, p: int, v: crate::model::WorkingStateView)
    requires
        encodable(v),
        0 <= p,
        p + spec_enc_state(v).len() <= s.len(),
        s.subrange(p, p + spec_enc_state(v).len()) == spec_enc_state(v),
    ensures
        spec_dec_state(s, p) == Some((v, p + spec_enc_state(v).len())),
{
    let a = spec_enc_cat_list(v.categories);
    let b = spec_enc_student_list(v.students);
    let c = spec_enc_bool(v.multi_match_mode);
    let d = spec_enc_opt_result(v.result);
    lemma_subrange_split(s, p, a + b + c, d);
    lemma_subrange_split(s, p, a + b, c);
    lemma_subrange_split(s, p, a, b);
    lemma_dec_enc_cat_list(s, p, v.categories);
    lemma_dec_enc_student_list(s, p + a.len(), v.students);
    lemma_dec_enc_bool(s, p + a.len() + b.len(), v.multi_match_mode);
    lemma_dec_enc_opt_result(s, p + a.len() + b.len() + c.len(), v.result);
    assert((crate::model::WorkingStateView {
        categories: v.categories,
        students: v.students,
        multi_match_mode: v.multi_match_mode,
        result: v.result,
    }) =~= v);
}

/// Relies on String::push: appends exactly one character.
#[verifier::external_body]
fn push_char(s: &mut String, c: char)
    ensures
        final(s)@ == old(s)@.push(c),
{
    s.push(c);
}

fn digit_to_char(d: usize) -> (c: char)
    requires
        d < 10,
    ensures
        c == digit_char(d as int),
{
    match d {
        0 => '0',
        1 => '1',
        2 => '2',
        3 => '3',
        4 => '4',
        5 => '5',
        6 => '6',
        7 => '7',
        8 => '8',
        _ => '9',
    }
}

fn push_nat_width(out: &mut String, n: usize, w: usize)
    ensures
        final(out)@ == old(out)@ + spec_enc_nat_width(n as nat, w as nat),
    decreases w,
{
    if w == 0 {
        proof {
            assert(old(out)@ + spec_enc_nat_width(n as nat, 0) =~= old(out)@);
        }
    } else {
        push_nat_width(out, n / 10, w - 1);
        let c = digit_to_char(n % 10);
        push_char(out, c);
        proof {
            assert(out@ =~= old(out)@ + spec_enc_nat_width(n as nat, w as nat));
        }
    }
}

fn push_nat(out: &mut String, n: usize)
    ensures
        final(out)@ == old(out)@ + spec_enc_nat(n as nat),
{
    push_nat_width(out, n, 20);
}

#[verifier::loop_isolation(false)]
fn push_str(out: &mut String, t: &String)
    ensures
        final(out)@ == old(out)@ + spec_enc_str(t@),
        t@.len() <= usize::MAX as nat,
{
    let l = t.unicode_len();
    push_nat(out, l);
    out.append(t.as_str());
    proof {
        assert(out@ =~= old(out)@ + spec_enc_str(t@));
    }
}

fn push_bool(out: &mut String, b: bool)
    ensures
        final(out)@ == old(out)@ + spec_enc_bool(b),
{
    if b {
        push_char(out, '1');
    } else {
        push_char(out, '0');
    }
    proof {
        assert(out@ =~= old(out)@ + spec_enc_bool(b));
    }
}

fn push_cat(out: &mut String, c: &crate::model::Category)
    ensures
        final(out)@ == old(out)@ + spec_enc_cat(c@),
        cat_bounded(c@),
{
    push_str(out, &c.name);
    push_nat(out, c.max_placements);
    proof {
        assert(out@ =~= old(out)@ + spec_enc_cat(c@));
    }
}

#[verifier::loop_isolation(false)]
fn push_cats(out: &mut String, v: &Vec<crate::model::Category>, i: usize)
    requires
        i <= v@.len(),
    ensures
        final(out)@ == old(out)@ + spec_enc_cats(crate::model::cat_views(v@).skip(i as int)),
        forall|k: int| i <= k < v@.len() ==> cat_bounded(
            #[trigger] crate::model::cat_views(v@)[k],
        ),
    decreases v@.len() - i,
{
    let ghost views = crate::model::cat_views(v@);
    if i < v.len() {
        push_cat(out, &v[i]);
        push_cats(out, v, i + 1);
        proof {
            assert(views.skip(i as int).drop_first() =~= views.skip(i as int + 1));
            assert(views.skip(i as int)[0] == views[i as int]);
            assert(spec_enc_cats(views.skip(i as int)) == spec_enc_cat(views[i as int])
                + spec_enc_cats(views.skip(i as int + 1)));
            assert(out@ =~= old(out)@ + spec_enc_cats(views.skip(i as int)));
        }
    } else {
        proof {
            assert(views.skip(i as int) =~= Seq::<crate::model::CategoryView>::empty());
            assert(old(out)@ + spec_enc_cats(views.skip(i as int)) =~= old(out)@);
        }
    }
}

#[verifier::loop_isolation(false)]
fn push_cat_list(out: &mut String, v: &Vec<crate::model::Category>)
    ensures
        final(out)@ == old(out)@ + spec_enc_cat_list(crate::model::cat_views(v@)),
        cats_bounded(crate::model::cat_views(v@)),
{
    let n = v.len();
    push_nat(out, n);
    push_cats(out, v, 0);
    proof {
        let views = crate::model::cat_views(v@);
        assert(views.skip(0) =~= views);
        assert(out@ =~= old(out)@ + spec_enc_cat_list(views));
    }
}

fn push_student(out: &mut String, s: &crate::model::Student)
    ensures
        final(out)@ == old(out)@ + spec_enc_student(s@),
        student_bounded(s@),
{
    push_str(out, &s.name);
    push_cat_list(out, &s.preferences);
    push_cat_list(out, &s.exclude);
    proof {
        assert(out@ =~= old(out)@ + spec_enc_student(s@));
    }
}

#[verifier::loop_isolation(false)]
fn push_students(out: &mut String, v: &Vec<crate::model::Student>, i: usize)
    requires
        i <= v@.len(),
    ensures
        final(out)@ == old(out)@ + spec_enc_students(
            crate::model::student_views(v@).skip(i as int),
        ),
        forall|k: int| i <= k < v@.len() ==> student_bounded(
            #[trigger] crate::model::student_views(v@)[k],
        ),
    decreases v@.len() - i,
{
    let ghost views = crate::model::student_views(v@);
    if i < v.len() {
        push_student(out, &v[i]);
        push_students(out, v, i + 1);
        proof {
            assert(views.skip(i as int).drop_first() =~= views.skip(i as int + 1));
            assert(views.skip(i as int)[0] == views[i as int]);
            assert(spec_enc_students(views.skip(i as int)) == spec_enc_student(views[i as int])
                + spec_enc_students(views.skip(i as int + 1)));
            assert(out@ =~= old(out)@ + spec_enc_students(views.skip(i as int)));
        }
    } else {
        proof {
            assert(views.skip(i as int) =~= Seq::<crate::model::StudentView>::empty());
            assert(old(out)@ + spec_enc_students(views.skip(i as int)) =~= old(out)@);
        }
    }
}

#[verifier::loop_isolation(false)]
fn push_student_list(out: &mut String, v: &Vec<crate::model::Student>)
    ensures
        final(out)@ == old(out)@ + spec_enc_student_list(crate::model::student_views(v@)),
        students_bounded(crate::model::student_views(v@)),
{
    let n = v.len();
    push_nat(out, n);
    push_students(out, v, 0);
    proof {
        let views = crate::model::student_views(v@);
        assert(views.skip(0) =~= views);
        assert(out@ =~= old(out)@ + spec_enc_student_list(views));
    }
}

fn push_placement(out: &mut String, p: &crate::model::Placement)
    ensures
        final(out)@ == old(out)@ + spec_enc_placement(p@),
        placement_bounded(p@),
{
    push_str(out, &p.category_name);
    push_student_list(out, &p.students);
    proof {
        assert(out@ =~= old(out)@ + spec_enc_placement(p@));
    }
}

#[verifier::loop_isolation(false)]
fn push_placements(out: &mut String, v: &Vec<crate::model::Placement>, i: usize)
    requires
        i <= v@.len(),
    ensures
        final(out)@ == old(out)@ + spec_enc_placements(
            crate::model::placement_views(v@).skip(i as int),
        ),
        forall|k: int| i <= k < v@.len() ==> placement_bounded(
            #[trigger] crate::model::placement_views(v@)[k],
        ),
    decreases v@.len() - i,
{
    let ghost views = crate::model::placement_views(v@);
    if i < v.len() {
        push_placement(out, &v[i]);
        push_placements(out, v, i + 1);
        proof {
            assert(views.skip(i as int).drop_first() =~= views.skip(i as int + 1));
            assert(views.skip(i as int)[0] == views[i as int]);
            assert(spec_enc_placements(views.skip(i as int)) == spec_enc_placement(
                views[i as int],
            ) + spec_enc_placements(views.skip(i as int + 1)));
            assert(out@ =~= old(out)@ + spec_enc_placements(views.skip(i as int)));
        }
    } else {
        proof {
            assert(views.skip(i as int) =~= Seq::<crate::model::PlacementView>::empty());
            assert(old(out)@ + spec_enc_placements(views.skip(i as int)) =~= old(out)@);
        }
    }
}

#[verifier::loop_isolation(false)]
fn push_placement_list(out: &mut String, v: &Vec<crate::model::Placement>)
    ensures
        final(out)@ == old(out)@ + spec_enc_placement_list(crate::model::placement_views(v@)),
        placements_bounded(crate::model::placement_views(v@)),
{
    let n = v.len();
    push_nat(out, n);
    push_placements(out, v, 0);
    proof {
        let views = crate::model::placement_views(v@);
        assert(views.skip(0) =~= views);
        assert(out@ =~= old(out)@ + spec_enc_placement_list(views));
    }
}

fn push_result(out: &mut String, r: &crate::model::AssignmentResult)
    ensures
        final(out)@ == old(out)@ + spec_enc_result(r@),
        result_bounded(r@),
{
    push_placement_list(out, &r.placed);
    push_student_list(out, &r.not_placable);
    proof {
        assert(out@ =~= old(out)@ + spec_enc_result(r@));
    }
}

/// Serialize the whole working state into one string, the exact text
/// the decoder reads back.
pub fn save(state: &crate::model::WorkingState) -> (r: String)
    ensures
        r@ == spec_enc_state(state@),
        encodable(state@),
{
    let mut out = String::new();
    push_cat_list(&mut out, &state.categories);
    push_student_list(&mut out, &state.students);
    push_bool(&mut out, state.multi_match_mode);
    match &state.result {
        None => {
            push_bool(&mut out, false);
        },
        Some(res) => {
            push_bool(&mut out, true);
            push_result(&mut out, res);
        },
    }
    proof {
        assert(out@ =~= spec_enc_state(state@));
    }
    out
}

fn char_to_digit(c: char) -> (r: Option<usize>)
    ensures
        match r {
            Some(d) => d < 10 && char_digit(c) == d as int,
            None => char_digit(c) == -1,
        },
{
    match c {
        '0' => Some(0),
        '1' => Some(1),
        '2' => Some(2),
        '3' => Some(3),
        '4' => Some(4),
        '5' => Some(5),
        '6' => Some(6),
        '7' => Some(7),
        '8' => Some(8),
        '9' => Some(9),
        _ => None,
    }
}

#[verifier::loop_isolation(false)]
fn parse_digits(s: &str, p: usize, w: usize) -> (r: Option<u128>)
    requires
        p + w <= s@.len(),
        p + w <= usize::MAX as int,
        w <= 20,
    ensures
        match r {
            Some(v) => all_digits(s@.subrange(p as int, p + w)) && v as int == digits_val(
                s@.subrange(p as int, p + w),
            ),
            None => !all_digits(s@.subrange(p as int, p + w)),
        },
    decreases w,
{
    if w == 0 {
        proof {
            assert(s@.subrange(p as int, p as int).len() == 0);
        }
        Some(0)
    } else {
        let prev = match parse_digits(s, p, w - 1) {
            Some(v) => v,
            None => {
                proof {
                    let shorter = s@.subrange(p as int, p + w - 1);
                    let full = s@.subrange(p as int, p + w);
                    let k = choose|k: int| 0 <= k < shorter.len() && !(char_digit(
                        #[trigger] shorter[k],
                    ) >= 0);
                    assert(full[k] == shorter[k]);
                }
                return None;
            },
        };
        let c = s.get_char(p + w - 1);
        let d = match char_to_digit(c) {
            Some(d) => d,
            None => {
                proof {
                    let full = s@.subrange(p as int, p + w);
                    assert(full[w - 1] == c);
                }
                return None;
            },
        };
        proof {
            let shorter = s@.subrange(p as int, p + w - 1);
            let full = s@.subrange(p as int, p + w);
            assert(full.drop_last() =~= shorter);
            assert(full.last() == c);
            assert forall|k: int| 0 <= k < full.len() implies char_digit(#[trigger] full[k])
                >= 0 by {
                if k < full.len() - 1 {
                    assert(full[k] == shorter[k]);
                }
            }
            lemma_digits_val_bound(shorter);
            assert(pow10(shorter.len()) <= pow10(19)) by {
                lemma_pow10_mono(shorter.len(), 19);
            }
            reveal_with_fuel(pow10, 21);
            assert(pow10(19) == 10000000000000000000nat);
        }
        Some(prev * 10 + d as u128)
    }
}

proof fn lemma_pow10_mono(a: nat, b: nat)
    requires
        a <= b,
    ensures
        pow10(a) <= pow10(b),
    decreases b,
{
    if a < b {
        lemma_pow10_mono(a, (b - 1) as nat);
        lemma_pow10_pos((b - 1) as nat);
    }
}

#[verifier::loop_isolation(false)]
fn parse_nat(s: &str, p: usize) -> (r: Option<(usize, usize)>)
    ensures
        match r {
            Some((v, np)) => spec_dec_nat(s@, p as int) == Some((v as nat, np as int)) && np as int
                <= s@.len() && np == p + 20,
            None => spec_dec_nat(s@, p as int) is None,
        },
{
    let total = s.unicode_len();
    if p > total || total - p < 20 {
        return None;
    }
    match parse_digits(s, p, 20) {
        None => None,
        Some(v) => {
            if v > (usize::MAX as u128) {
                None
            } else {
                Some((v as usize, p + 20))
            }
        },
    }
}

#[verifier::loop_isolation(false)]
fn parse_str(s: &str, p: usize) -> (r: Option<(String, usize)>)
    ensures
        match r {
            Some((t, np)) => spec_dec_str(s@, p as int) == Some((t@, np as int)) && np as int
                <= s@.len(),
            None => spec_dec_str(s@, p as int) is None,
        },
{
    let total = s.unicode_len();
    match parse_nat(s, p) {
        None => None,
        Some((n, p2)) => {
            if n > total - p2 {
                None
            } else {
                let sub = s.substring_char(p2, p2 + n);
                Some((sub.to_owned(), p2 + n))
            }
        },
    }
}

#[verifier::loop_isolation(false)]
fn parse_bool(s: &str, p: usize) -> (r: Option<(bool, usize)>)
    ensures
        match r {
            Some((b, np)) => spec_dec_bool(s@, p as int) == Some((b, np as int)) && np as int
                <= s@.len(),
            None => spec_dec_bool(s@, p as int) is None,
        },
{
    let total = s.unicode_len();
    if p >= total {
        return None;
    }
    let c = s.get_char(p);
    if c == '1' {
        Some((true, p + 1))
    } else if c == '0' {
        Some((false, p + 1))
    } else {
        None
    }
}

#[verifier::loop_isolation(false)]
fn parse_cat(s: &str, p: usize) -> (r: Option<(crate::model::Category, usize)>)
    ensures
        match r {
            Some((c, np)) => spec_dec_cat(s@, p as int) == Some((c@, np as int)) && np as int
                <= s@.len(),
            None => spec_dec_cat(s@, p as int) is None,
        },
{
    match parse_str(s, p) {
        None => None,
        Some((name, p2)) => match parse_nat(s, p2) {
            None => None,
            Some((m, p3)) => {
                let c = crate::model::Category { name, max_placements: m };
                proof {
                    assert(c@ =~= spec_dec_cat(s@, p as int).unwrap().0);
                }
                Some((c, p3))
            },
        },
    }
}

#[verifier::loop_isolation(false)]
fn parse_cats(s: &str, p: usize, n: usize) -> (r: Option<(Vec<crate::model::Category>, usize)>)
    requires
        p as int <= s@.len(),
    ensures
        match r {
            Some((items, np)) => spec_dec_cats(s@, p as int, n as nat) == Some(
                (crate::model::cat_views(items@), np as int),
            ) && np as int <= s@.len(),
            None => spec_dec_cats(s@, p as int, n as nat) is None,
        },
{
    let mut out: Vec<crate::model::Category> = Vec::new();
    let mut cur: usize = p;
    let mut i: usize = 0;
    proof {
        assert(crate::model::cat_views(out@) =~= Seq::<crate::model::CategoryView>::empty());
        if spec_dec_cats(s@, p as int, n as nat) is Some {
            let pair = spec_dec_cats(s@, p as int, n as nat).unwrap();
            assert(crate::model::cat_views(out@) + pair.0 =~= pair.0);
        }
    }
    while i < n
        invariant
            i <= n,
            cur as int <= s@.len(),
            spec_dec_cats(s@, p as int, n as nat) == (match spec_dec_cats(
                s@,
                cur as int,
                (n - i) as nat,
            ) {
                Some((rest, np)) => Some((crate::model::cat_views(out@) + rest, np)),
                None => None::<(Seq<crate::model::CategoryView>, int)>,
            }),
        decreases n - i,
    {
        let ghost pre_views = crate::model::cat_views(out@);
        match parse_cat(s, cur) {
            None => {
                return None;
            },
            Some((c, np)) => {
                out.push(c);
                proof {
                    assert(crate::model::cat_views(out@) =~= pre_views.push(c@));
                    if spec_dec_cats(s@, np as int, (n - i - 1) as nat) is Some {
                        let pair = spec_dec_cats(s@, np as int, (n - i - 1) as nat).unwrap();
                        assert(pre_views + (seq![c@] + pair.0) =~= pre_views.push(c@) + pair.0);
                    }
                }
                cur = np;
                i = i + 1;
            },
        }
    }
    proof {
        assert(spec_dec_cats(s@, cur as int, (n - i) as nat) == Some((
            Seq::<crate::model::CategoryView>::empty(),
            cur as int,
        )));
        assert(crate::model::cat_views(out@) + Seq::<crate::model::CategoryView>::empty()
            =~= crate::model::cat_views(out@));
    }
    Some((out, cur))
}

#[verifier::loop_isolation(false)]
fn parse_cat_list(s: &str, p: usize) -> (r: Option<(Vec<crate::model::Category>, usize)>)
    ensures
        match r {
            Some((items, np)) => spec_dec_cat_list(s@, p as int) == Some(
                (crate::model::cat_views(items@), np as int),
            ) && np as int <= s@.len(),
            None => spec_dec_cat_list(s@, p as int) is None,
        },
{
    match parse_nat(s, p) {
        None => None,
        Some((n, p2)) => parse_cats(s, p2, n),
    }
}

#[verifier::loop_isolation(false)]
fn parse_student(s: &str, p: usize) -> (r: Option<(crate::model::Student, usize)>)
    ensures
        match r {
            Some((v, np)) => spec_dec_student(s@, p as int) == Some((v@, np as int)) && np as int
                <= s@.len(),
            None => spec_dec_student(s@, p as int) is None,
        },
{
    match parse_str(s, p) {
        None => None,
        Some((name, p2)) => match parse_cat_list(s, p2) {
            None => None,
            Some((preferences, p3)) => match parse_cat_list(s, p3) {
                None => None,
                Some((exclude, p4)) => {
                    let v = crate::model::Student { name, preferences, exclude };
                    proof {
                        assert(v@ =~= spec_dec_student(s@, p as int).unwrap().0);
                    }
                    Some((v, p4))
                },
            },
        },
    }
}

#[verifier::loop_isolation(false)]
fn parse_students(s: &str, p: usize, n: usize) -> (r: Option<(Vec<crate::model::Student>, usize)>)
    requires
        p as int <= s@.len(),
    ensures
        match r {
            Some((items, np)) => spec_dec_students(s@, p as int, n as nat) == Some(
                (crate::model::student_views(items@), np as int),
            ) && np as int <= s@.len(),
            None => spec_dec_students(s@, p as int, n as nat) is None,
        },
{
    let mut out: Vec<crate::model::Student> = Vec::new();
    let mut cur: usize = p;
    let mut i: usize = 0;
    proof {
        assert(crate::model::student_views(out@) =~= Seq::<crate::model::StudentView>::empty());
        if spec_dec_students(s@, p as int, n as nat) is Some {
            let pair = spec_dec_students(s@, p as int, n as nat).unwrap();
            assert(crate::model::student_views(out@) + pair.0 =~= pair.0);
        }
    }
    while i < n
        invariant
            i <= n,
            cur as int <= s@.len(),
            spec_dec_students(s@, p as int, n as nat) == (match spec_dec_students(
                s@,
                cur as int,
                (n - i) as nat,
            ) {
                Some((rest, np)) => Some((crate::model::student_views(out@) + rest, np)),
                None => None::<(Seq<crate::model::StudentView>, int)>,
            }),
        decreases n - i,
    {
        let ghost pre_views = crate::model::student_views(out@);
        match parse_student(s, cur) {
            None => {
                return None;
            },
            Some((v, np)) => {
                out.push(v);
                proof {
                    assert(crate::model::student_views(out@) =~= pre_views.push(v@));
                    if spec_dec_students(s@, np as int, (n - i - 1) as nat) is Some {
                        let pair = spec_dec_students(s@, np as int, (n - i - 1) as nat).unwrap();
                        assert(pre_views + (seq![v@] + pair.0) =~= pre_views.push(v@) + pair.0);
                    }
                }
                cur = np;
                i = i + 1;
            },
        }
    }
    proof {
        assert(spec_dec_students(s@, cur as int, (n - i) as nat) == Some((
            Seq::<crate::model::StudentView>::empty(),
            cur as int,
        )));
        assert(crate::model::student_views(out@) + Seq::<crate::model::StudentView>::empty()
            =~= crate::model::student_views(out@));
    }
    Some((out, cur))
}

#[verifier::loop_isolation(false)]
fn parse_student_list(s: &str, p: usize) -> (r: Option<(Vec<crate::model::Student>, usize)>)
    ensures
        match r {
            Some((items, np)) => spec_dec_student_list(s@, p as int) == Some(
                (crate::model::student_views(items@), np as int),
            ) && np as int <= s@.len(),
            None => spec_dec_student_list(s@, p as int) is None,
        },
{
    match parse_nat(s, p) {
        None => None,
        Some((n, p2)) => parse_students(s, p2, n),
    }
}

#[verifier::loop_isolation(false)]
fn parse_placement(s: &str, p: usize) -> (r: Option<(crate::model::Placement, usize)>)
    ensures
        match r {
            Some((v, np)) => spec_dec_placement(s@, p as int) == Some((v@, np as int)) && np as int
                <= s@.len(),
            None => spec_dec_placement(s@, p as int) is None,
        },
{
    match parse_str(s, p) {
        None => None,
        Some((category_name, p2)) => match parse_student_list(s, p2) {
            None => None,
            Some((students, p3)) => {
                let v = crate::model::Placement { category_name, students };
                proof {
                    assert(v@ =~= spec_dec_placement(s@, p as int).unwrap().0);
                }
                Some((v, p3))
            },
        },
    }
}

#[verifier::loop_isolation(false)]
fn parse_placements(s: &str, p: usize, n: usize) -> (r: Option<(
    Vec<crate::model::Placement>,
    usize,
)>)
    requires
        p as int <= s@.len(),
    ensures
        match r {
            Some((items, np)) => spec_dec_placements(s@, p as int, n as nat) == Some(
                (crate::model::placement_views(items@), np as int),
            ) && np as int <= s@.len(),
            None => spec_dec_placements(s@, p as int, n as nat) is None,
        },
{
    let mut out: Vec<crate::model::Placement> = Vec::new();
    let mut cur: usize = p;
    let mut i: usize = 0;
    proof {
        assert(crate::model::placement_views(out@) =~= Seq::<crate::model::PlacementView>::empty());
        if spec_dec_placements(s@, p as int, n as nat) is Some {
            let pair = spec_dec_placements(s@, p as int, n as nat).unwrap();
            assert(crate::model::placement_views(out@) + pair.0 =~= pair.0);
        }
    }
    while i < n
        invariant
            i <= n,
            cur as int <= s@.len(),
            spec_dec_placements(s@, p as int, n as nat) == (match spec_dec_placements(
                s@,
                cur as int,
                (n - i) as nat,
            ) {
                Some((rest, np)) => Some((crate::model::placement_views(out@) + rest, np)),
                None => None::<(Seq<crate::model::PlacementView>, int)>,
            }),
        decreases n - i,
    {
        let ghost pre_views = crate::model::placement_views(out@);
        match parse_placement(s, cur) {
            None => {
                return None;
            },
            Some((v, np)) => {
                out.push(v);
                proof {
                    assert(crate::model::placement_views(out@) =~= pre_views.push(v@));
                    if spec_dec_placements(s@, np as int, (n - i - 1) as nat) is Some {
                        let pair = spec_dec_placements(s@, np as int, (n - i - 1) as nat).unwrap();
                        assert(pre_views + (seq![v@] + pair.0) =~= pre_views.push(v@) + pair.0);
                    }
                }
                cur = np;
                i = i + 1;
            },
        }
    }
    proof {
        assert(spec_dec_placements(s@, cur as int, (n - i) as nat) == Some((
            Seq::<crate::model::PlacementView>::empty(),
            cur as int,
        )));
        assert(crate::model::placement_views(out@) + Seq::<crate::model::PlacementView>::empty()
            =~= crate::model::placement_views(out@));
    }
    Some((out, cur))
}

#[verifier::loop_isolation(false)]
fn parse_placement_list(s: &str, p: usize) -> (r: Option<(Vec<crate::model::Placement>, usize)>)
    ensures
        match r {
            Some((items, np)) => spec_dec_placement_list(s@, p as int) == Some(
                (crate::model::placement_views(items@), np as int),
            ) && np as int <= s@.len(),
            None => spec_dec_placement_list(s@, p as int) is None,
        },
{
    match parse_nat(s, p) {
        None => None,
        Some((n, p2)) => parse_placements(s, p2, n),
    }
}

#[verifier::loop_isolation(false)]
fn parse_result(s: &str, p: usize) -> (r: Option<(crate::model::AssignmentResult, usize)>)
    ensures
        match r {
            Some((v, np)) => spec_dec_result(s@, p as int) == Some((v@, np as int)) && np as int
                <= s@.len(),
            None => spec_dec_result(s@, p as int) is None,
        },
{
    match parse_placement_list(s, p) {
        None => None,
        Some((placed, p2)) => match parse_student_list(s, p2) {
            None => None,
            Some((not_placable, p3)) => {
                let v = crate::model::AssignmentResult { placed, not_placable };
                proof {
                    assert(v@ =~= spec_dec_result(s@, p as int).unwrap().0);
                }
                Some((v, p3))
            },
        },
    }
}

#[verifier::loop_isolation(false)]
fn parse_opt_result(s: &str, p: usize) -> (r: Option<(
    Option<crate::model::AssignmentResult>,
    usize,
)>)
    ensures
        match r {
            Some((o, np)) => spec_dec_opt_result(s@, p as int) == Some(
                (
                    match o {
                        Some(v) => Some(v@),
                        None => None,
                    },
                    np as int,
                ),
            ) && np as int <= s@.len(),
            None => spec_dec_opt_result(s@, p as int) is None,
        },
{
    match parse_bool(s, p) {
        None => None,
        Some((flag, p2)) => {
            if flag {
                match parse_result(s, p2) {
                    None => None,
                    Some((v, p3)) => Some((Some(v), p3)),
                }
            } else {
                Some((None, p2))
            }
        },
    }
}

#[verifier::loop_isolation(false)]
fn parse_state(s: &str, p: usize) -> (r: Option<(crate::model::WorkingState, usize)>)
    ensures
        match r {
            Some((v, np)) => spec_dec_state(s@, p as int) == Some((v@, np as int)) && np as int
                <= s@.len(),
            None => spec_dec_state(s@, p as int) is None,
        },
{
    match parse_cat_list(s, p) {
        None => None,
        Some((categories, p2)) => match parse_student_list(s, p2) {
            None => None,
            Some((students, p3)) => match parse_bool(s, p3) {
                None => None,
                Some((multi_match_mode, p4)) => match parse_opt_result(s, p4) {
                    None => None,
                    Some((result, p5)) => {
                        let v = crate::model::WorkingState {
                            categories,
                            students,
                            multi_match_mode,
                            result,
                        };
                        proof {
                            assert(v@ =~= spec_dec_state(s@, p as int).unwrap().0);
                        }
                        Some((v, p5))
                    },
                },
            },
        },
    }
}

/// What decoding a stored text yields: the state it encodes, provided
/// the text parses completely and the state satisfies the invariant.
pub open spec fn spec_decode(sv: Seq<char>) -> Option<crate::model::WorkingStateView> {
    match spec_dec_state(sv, 0) {
        Some((v, p)) => if p == sv.len() && v.wf() {
            Some(v)
        } else {
            None
        },
        None => None,
    }
}

/// Parse a stored text back into a working state: the exact inverse of
/// `save`, rejecting trailing text and any state that breaks the
/// invariant.
pub fn decode(s: &str) -> (r: Option<crate::model::WorkingState>)
    ensures
        match r {
            Some(ws) => spec_decode(s@) == Some(ws@) && ws@.wf(),
            None => spec_decode(s@) is None,
        },
{
    match parse_state(s, 0) {
        None => None,
        Some((ws, p)) => {
            let total = s.unicode_len();
            if p != total {
                None
            } else if !ws.check_wf() {
                None
            } else {
                Some(ws)
            }
        },
    }
}

/// Restore a working state from the store's contents: a missing or
/// malformed text falls back to the empty state, never to an error.
pub fn load(stored: Option<&str>) -> (r: crate::model::WorkingState)
    ensures
        r@.wf(),
        match stored {
            None => r@ == crate::model::WorkingStateView::empty(),
            Some(s) => match spec_decode(s@) {
                Some(v) => r@ == v,
                None => r@ == crate::model::WorkingStateView::empty(),
            },
        },
{
    match stored {
        None => crate::model::WorkingState::new(),
        Some(s) => match decode(s) {
            Some(ws) => ws,
            None => crate::model::WorkingState::new(),
        },
    }
}

/// The persistence law: any working state within the machine's bounds
/// decodes from its own encoding, so a save followed by a load restores
/// the state exactly.
pub proof fn lemma_save_load_round_trip(v: crate::model::WorkingStateView)
    requires
        encodable(v),
        v.wf(),
    ensures
        spec_decode(spec_enc_state(v)) == Some(v),
{
    let e = spec_enc_state(v);
    assert(e.subrange(0, e.len() as int) =~= e);
    lemma_dec_enc_state(e, 0, v);
}

} // verus!
