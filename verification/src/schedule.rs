use vstd::prelude::*;

use crate::text::str_eq;

verus! {

/// One dated academic-calendar entry: one or two ISO dates, a title, the
/// owning department, and the category assigned by the classifier (empty
/// before classification).
#[derive(Debug)]
pub struct Schedule {
    pub at: Vec<String>,
    pub title: String,
    pub org: String,
    pub category: String,
}

/// Mathematical model of a schedule record: every text field as a
/// sequence of characters.
pub ghost struct SchedView {
    pub at: Seq<Seq<char>>,
    pub title: Seq<char>,
    pub org: Seq<char>,
    pub category: Seq<char>,
}

impl View for Schedule {
    type V = SchedView;

    open spec fn view(&self) -> SchedView {
        SchedView {
            at: self.at@.map_values(|s: String| s@),
            title: self.title@,
            org: self.org@,
            category: self.category@,
        }
    }
}

/// The records of a vector of schedules, as their models.
pub open spec fn scheds_view(v: Seq<Schedule>) -> Seq<SchedView> {
    v.map_values(|s: Schedule| s@)
}

/// The label at bit position `j` of the fixed 8-entry category enumeration.
pub open spec fn label_at(j: int) -> Seq<char> {
    if j == 0 {
        "수업"@
    } else if j == 1 {
        "학적"@
    } else if j == 2 {
        "대학원"@
    } else if j == 3 {
        "장학"@
    } else if j == 4 {
        "교직"@
    } else if j == 5 {
        "행사"@
    } else if j == 6 {
        "기타"@
    } else if j == 7 {
        "졸업"@
    } else {
        Seq::empty()
    }
}

/// The fixed enumeration as a sequence, in bit-position order.
pub open spec fn fixed_labels() -> Seq<Seq<char>> {
    Seq::new(8, |j: int| label_at(j))
}

pub open spec fn is_fixed_label(l: Seq<char>) -> bool {
    exists|j: int| 0 <= j < 8 && l == label_at(j)
}

/// The categories of a list, as sequences of characters.
pub open spec fn cats_view(cats: Seq<String>) -> Seq<Seq<char>> {
    cats.map_values(|s: String| s@)
}

/// Bit `j` of mask `m`.
pub open spec fn mask_has(m: u32, j: int) -> bool {
    m & (1u32 << (j as u32)) != 0
}

/// The single-bit mask of a label: the bit at its position in the fixed
/// enumeration (first match), or zero for a label outside the enumeration.
pub open spec fn label_bit(l: Seq<char>) -> u32 {
    if l == label_at(0) {
        1u32 << 0u32
    } else if l == label_at(1) {
        1u32 << 1u32
    } else if l == label_at(2) {
        1u32 << 2u32
    } else if l == label_at(3) {
        1u32 << 3u32
    } else if l == label_at(4) {
        1u32 << 4u32
    } else if l == label_at(5) {
        1u32 << 5u32
    } else if l == label_at(6) {
        1u32 << 6u32
    } else if l == label_at(7) {
        1u32 << 7u32
    } else {
        0u32
    }
}

/// The mask encoding a list of labels: the union of their bits.
pub open spec fn mask_of(cats: Seq<Seq<char>>) -> u32
    decreases cats.len(),
{
    if cats.len() == 0 {
        0u32
    } else {
        mask_of(cats.drop_last()) | label_bit(cats.last())
    }
}

/// The labels selected by a mask among bit positions `lo <= j < 8`, in
/// enumeration order.
pub open spec fn sel_from(m: u32, lo: int) -> Seq<Seq<char>>
    decreases 8 - lo,
{
    if lo < 0 || lo >= 8 {
        Seq::empty()
    } else if mask_has(m, lo) {
        seq![label_at(lo)] + sel_from(m, lo + 1)
    } else {
        sel_from(m, lo + 1)
    }
}

/// A requested subset of the fixed category enumeration, as an explicit
/// list of labels.
pub struct ScheduleCategoryList {
    pub categories: Vec<String>,
}

impl ScheduleCategoryList {
    pub fn from_categories(schedule_categories: Vec<String>) -> (r: ScheduleCategoryList)
        ensures
            r.categories@ == schedule_categories@,
    {
        ScheduleCategoryList { categories: schedule_categories }
    }

    /// The full fixed enumeration, in bit-position order.
    pub fn all() -> (r: ScheduleCategoryList)
        ensures
            cats_view(r.categories@) == fixed_labels(),
    {
        let mut v: Vec<String> = Vec::new();
        v.push(String::from_str("수업"));
        v.push(String::from_str("학적"));
        v.push(String::from_str("대학원"));
        v.push(String::from_str("장학"));
        v.push(String::from_str("교직"));
        v.push(String::from_str("행사"));
        v.push(String::from_str("기타"));
        v.push(String::from_str("졸업"));
        let r = ScheduleCategoryList { categories: v };
        proof {
            assert(cats_view(r.categories@) =~= fixed_labels());
        }
        r
    }

    /// Encode this list as a bitmask: the union of the bits of its labels;
    /// labels outside the fixed enumeration contribute nothing.
    pub fn to_hash(&self) -> (r: u32)
        ensures
            r == mask_of(cats_view(self.categories@)),
    {
        let mut hash: u32 = 0;
        let mut i: usize = 0;
        while i < self.categories.len()
            invariant
                0 <= i <= self.categories.len(),
                hash == mask_of(cats_view(self.categories@.take(i as int))),
            decreases self.categories.len() - i,
        {
            let b = category_bit(&self.categories[i]);
            proof {
                assert(cats_view(self.categories@.take(i + 1)).drop_last() =~= cats_view(
                    self.categories@.take(i as int),
                ));
                assert(cats_view(self.categories@.take(i + 1)).last() == self.categories@[
                    i as int]@);
            }
            hash = hash | b;
            i = i + 1;
        }
        proof {
            assert(self.categories@.take(self.categories@.len() as int) =~= self.categories@);
        }
        hash
    }

    /// Decode a bitmask: the labels whose bit is set, in the fixed
    /// enumeration order; bits at position 8 and above are ignored.
    pub fn from_hash(hash: u32) -> (r: ScheduleCategoryList)
        ensures
            cats_view(r.categories@) == sel_from(hash, 0),
    {
        let all_list = Self::all();
        proof {
            assert(all_list.categories@.len() == cats_view(all_list.categories@).len());
        }
        let mut selected: Vec<String> = Vec::new();
        let mut i: usize = 0;
        while i < 8
            invariant
                0 <= i <= 8,
                all_list.categories@.len() == 8,
                cats_view(all_list.categories@) == fixed_labels(),
                cats_view(selected@) + sel_from(hash, i as int) =~= sel_from(hash, 0),
            decreases 8 - i,
        {
            if hash & (1u32 << (i as u32)) != 0 {
                let ghost pre = selected@;
                let c = clone_string(&all_list.categories[i]);
                selected.push(c);
                proof {
                    assert(c@ == cats_view(all_list.categories@)[i as int]);
                    assert(c@ == label_at(i as int));
                    assert(cats_view(selected@) =~= cats_view(pre) + seq![label_at(i as int)]);
                }
            }
            i = i + 1;
        }
        let r = ScheduleCategoryList { categories: selected };
        proof {
            assert(cats_view(r.categories@) =~= cats_view(r.categories@) + sel_from(hash, 8));
        }
        r
    }

    /// Whether a label occurs in this list.
    pub fn contains(&self, category: &str) -> (r: bool)
        ensures
            r == cats_view(self.categories@).contains(category@),
    {
        let mut i: usize = 0;
        while i < self.categories.len()
            invariant
                0 <= i <= self.categories.len(),
                forall|k: int| 0 <= k < i ==> self.categories@[k]@ != category@,
            decreases self.categories.len() - i,
        {
            if str_eq(self.categories[i].as_str(), category) {
                proof {
                    assert(cats_view(self.categories@)[i as int] == category@);
                }
                return true;
            }
            i = i + 1;
        }
        proof {
            assert(forall|k: int|
                0 <= k < cats_view(self.categories@).len() ==> cats_view(self.categories@)[k]
                    != category@);
        }
        false
    }
}

/// Two sequences with different first elements are different.
proof fn lemma_ne_by_first(a: Seq<char>, b: Seq<char>)
    requires
        a.len() > 0,
        b.len() > 0,
        a[0] != b[0],
    ensures
        a != b,
{
}

/// The eight labels of the fixed enumeration are pairwise distinct.
pub proof fn lemma_labels_distinct()
    ensures
        forall|i: int, j: int|
            0 <= i < 8 && 0 <= j < 8 && i != j ==> label_at(i) != label_at(j),
{
    reveal_strlit("수업");
    reveal_strlit("학적");
    reveal_strlit("대학원");
    reveal_strlit("장학");
    reveal_strlit("교직");
    reveal_strlit("행사");
    reveal_strlit("기타");
    reveal_strlit("졸업");
    assert(label_at(0)[0] == '수');
    assert(label_at(1)[0] == '학');
    assert(label_at(2)[0] == '대');
    assert(label_at(3)[0] == '장');
    assert(label_at(4)[0] == '교');
    assert(label_at(5)[0] == '행');
    assert(label_at(6)[0] == '기');
    assert(label_at(7)[0] == '졸');
    assert forall|i: int, j: int|
        0 <= i < 8 && 0 <= j < 8 && i != j implies label_at(i) != label_at(j) by {
        lemma_ne_by_first(label_at(i), label_at(j));
    }
}

proof fn lemma_bit_or_has(a: u32, b: u32, j: u32)
    requires
        j < 8,
    ensures
        ((a | b) & (1u32 << j) != 0) == ((a & (1u32 << j) != 0) || (b & (1u32 << j) != 0)),
{
    assert(((a | b) & (1u32 << j) != 0) == ((a & (1u32 << j) != 0) || (b & (1u32 << j) != 0)))
        by (bit_vector);
}

proof fn lemma_one_bit(j: u32, k: u32)
    requires
        j < 8,
        k < 8,
    ensures
        ((1u32 << j) & (1u32 << k) != 0) == (j == k),
{
    assert(j < 8 && k < 8 ==> (((1u32 << j) & (1u32 << k) != 0) == (j == k))) by (bit_vector);
}

proof fn lemma_zero_bit(j: u32)
    requires
        j < 8,
    ensures
        0u32 & (1u32 << j) == 0,
{
    assert(0u32 & (1u32 << j) == 0) by (bit_vector);
}

/// The mask of a single label has exactly the bit of that label's position.
proof fn lemma_label_bit_has(l: Seq<char>, j: int)
    requires
        0 <= j < 8,
    ensures
        mask_has(label_bit(l), j) == (l == label_at(j)),
{
    lemma_labels_distinct();
    let ju = j as u32;
    if l == label_at(0) {
        lemma_one_bit(0, ju);
    } else if l == label_at(1) {
        lemma_one_bit(1, ju);
    } else if l == label_at(2) {
        lemma_one_bit(2, ju);
    } else if l == label_at(3) {
        lemma_one_bit(3, ju);
    } else if l == label_at(4) {
        lemma_one_bit(4, ju);
    } else if l == label_at(5) {
        lemma_one_bit(5, ju);
    } else if l == label_at(6) {
        lemma_one_bit(6, ju);
    } else if l == label_at(7) {
        lemma_one_bit(7, ju);
    } else {
        lemma_zero_bit(ju);
    }
}

/// Bit `j` of the mask of a list is set exactly when the list holds label `j`.
pub proof fn lemma_mask_of_has(cats: Seq<Seq<char>>, j: int)
    requires
        0 <= j < 8,
    ensures
        mask_has(mask_of(cats), j) == cats.contains(label_at(j)),
    decreases cats.len(),
{
    if cats.len() == 0 {
        lemma_zero_bit(j as u32);
        assert(!cats.contains(label_at(j)));
    } else {
        let front = cats.drop_last();
        let last = cats.last();
        lemma_mask_of_has(front, j);
        lemma_bit_or_has(mask_of(front), label_bit(last), j as u32);
        lemma_label_bit_has(last, j);
        if cats.contains(label_at(j)) {
            let i = choose|i: int| 0 <= i < cats.len() && cats[i] == label_at(j);
            if i < cats.len() - 1 {
                assert(front[i] == label_at(j));
                assert(front.contains(label_at(j)));
            }
        }
        if front.contains(label_at(j)) {
            let i = choose|i: int| 0 <= i < front.len() && front[i] == label_at(j);
            assert(cats[i] == label_at(j));
            assert(cats.contains(label_at(j)));
        }
        if last == label_at(j) {
            assert(cats[cats.len() - 1] == label_at(j));
            assert(cats.contains(label_at(j)));
        }
    }
}

/// The decoded list holds label `j` exactly when `j` is at or past the lower
/// bound and the mask has bit `j`.
proof fn lemma_sel_contains(m: u32, lo: int, j: int)
    requires
        0 <= lo <= 8,
        0 <= j < 8,
    ensures
        sel_from(m, lo).contains(label_at(j)) == (lo <= j && mask_has(m, j)),
    decreases 8 - lo,
{
    lemma_labels_distinct();
    if lo >= 8 {
        assert(!sel_from(m, lo).contains(label_at(j)));
    } else {
        lemma_sel_contains(m, lo + 1, j);
        let rest = sel_from(m, lo + 1);
        if mask_has(m, lo) {
            let s = seq![label_at(lo)] + rest;
            assert(sel_from(m, lo) == s);
            if j == lo {
                assert(s[0] == label_at(j));
                assert(s.contains(label_at(j)));
            } else if lo < j && mask_has(m, j) {
                let i = choose|i: int| 0 <= i < rest.len() && rest[i] == label_at(j);
                assert(s[i + 1] == label_at(j));
                assert(s.contains(label_at(j)));
            } else {
                if s.contains(label_at(j)) {
                    let i = choose|i: int| 0 <= i < s.len() && s[i] == label_at(j);
                    assert(i != 0);
                    assert(rest[i - 1] == label_at(j));
                    assert(rest.contains(label_at(j)));
                    assert(false);
                }
            }
        } else {
            if sel_from(m, lo).contains(label_at(j)) {
                assert(rest.contains(label_at(j)));
            }
            if lo <= j && mask_has(m, j) {
                assert(j != lo);
                assert(rest.contains(label_at(j)));
            }
        }
    }
}

/// Every element of a decoded list is a label of the fixed enumeration.
proof fn lemma_sel_elems(m: u32, lo: int, x: Seq<char>)
    requires
        0 <= lo <= 8,
        sel_from(m, lo).contains(x),
    ensures
        is_fixed_label(x),
    decreases 8 - lo,
{
    if lo >= 8 {
        assert(false);
    } else {
        let rest = sel_from(m, lo + 1);
        if mask_has(m, lo) {
            let s = seq![label_at(lo)] + rest;
            let i = choose|i: int| 0 <= i < s.len() && s[i] == x;
            if i == 0 {
                assert(x == label_at(lo));
            } else {
                assert(rest[i - 1] == x);
                assert(rest.contains(x));
                lemma_sel_elems(m, lo + 1, x);
            }
        } else {
            lemma_sel_elems(m, lo + 1, x);
        }
    }
}

/// Law: decoding the encoding of any subset of the fixed enumeration yields
/// exactly that subset (set semantics: encoding is order-independent and the
/// decoded list comes back in the fixed enumeration order); the empty subset
/// encodes to mask zero, and mask zero decodes to the empty list.
pub proof fn lemma_decode_encode(cats: Seq<Seq<char>>)
    requires
        forall|i: int| 0 <= i < cats.len() ==> is_fixed_label(#[trigger] cats[i]),
    ensures
        forall|x: Seq<char>|
            #[trigger] sel_from(mask_of(cats), 0).contains(x) == cats.contains(x),
        cats.len() == 0 ==> mask_of(cats) == 0,
        sel_from(0, 0) == Seq::<Seq<char>>::empty(),
{
    let m = mask_of(cats);
    assert forall|x: Seq<char>| #[trigger] sel_from(m, 0).contains(x) == cats.contains(x) by {
        if sel_from(m, 0).contains(x) {
            lemma_sel_elems(m, 0, x);
            let j = choose|j: int| 0 <= j < 8 && x == label_at(j);
            lemma_sel_contains(m, 0, j);
            lemma_mask_of_has(cats, j);
        }
        if cats.contains(x) {
            let i = choose|i: int| 0 <= i < cats.len() && cats[i] == x;
            assert(is_fixed_label(cats[i]));
            let j = choose|j: int| 0 <= j < 8 && x == label_at(j);
            lemma_sel_contains(m, 0, j);
            lemma_mask_of_has(cats, j);
        }
    }
    assert forall|j: int| 0 <= j < 8 implies !mask_has(0u32, j) by {
        lemma_zero_bit(j as u32);
    }
    assert(sel_from(0, 0) =~= Seq::<Seq<char>>::empty()) by {
        lemma_sel_zero_empty(0);
    }
}

/// Mask zero selects nothing.
proof fn lemma_sel_zero_empty(lo: int)
    requires
        0 <= lo <= 8,
    ensures
        sel_from(0, lo) == Seq::<Seq<char>>::empty(),
    decreases 8 - lo,
{
    if lo < 8 {
        lemma_zero_bit(lo as u32);
        lemma_sel_zero_empty(lo + 1);
    }
}

/// An exact copy of a string.
pub fn clone_string(s: &String) -> (r: String)
    ensures
        r@ == s@,
{
    String::from_str(s.as_str())
}

/// The label at a bit position of the fixed enumeration, as an owned string.
pub fn label_string(j: usize) -> (r: String)
    requires
        j < 8,
    ensures
        r@ == label_at(j as int),
{
    if j == 0 {
        String::from_str("수업")
    } else if j == 1 {
        String::from_str("학적")
    } else if j == 2 {
        String::from_str("대학원")
    } else if j == 3 {
        String::from_str("장학")
    } else if j == 4 {
        String::from_str("교직")
    } else if j == 5 {
        String::from_str("행사")
    } else if j == 6 {
        String::from_str("기타")
    } else {
        String::from_str("졸업")
    }
}

/// The bit of a category string: the bit at the first position of the fixed
/// enumeration holding an equal label, or zero when none does.
fn category_bit(c: &String) -> (r: u32)
    ensures
        r == label_bit(c@),
{
    let all_list = ScheduleCategoryList::all();
    proof {
        assert(all_list.categories@.len() == cats_view(all_list.categories@).len());
    }
    let mut j: usize = 0;
    while j < 8
        invariant
            0 <= j <= 8,
            all_list.categories@.len() == 8,
            cats_view(all_list.categories@) == fixed_labels(),
            forall|k: int| 0 <= k < j ==> c@ != label_at(k),
        decreases 8 - j,
    {
        proof {
            assert(all_list.categories@[j as int]@ == cats_view(all_list.categories@)[j as int]);
            assert(all_list.categories@[j as int]@ == label_at(j as int));
        }
        if str_eq(c.as_str(), all_list.categories[j].as_str()) {
            proof {
                assert(c@ == label_at(j as int));
            }
            return 1u32 << (j as u32);
        }
        j = j + 1;
    }
    0u32
}

} // verus!
