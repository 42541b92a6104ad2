use vstd::prelude::*;
use vstd::string::StrSliceExecFns;

verus! {

/// The code of `c` with ASCII upper-case letters mapped to lower case.
pub open spec fn ascii_fold(c: char) -> u32 {
    if 'A' <= c && c <= 'Z' {
        (c as u32 + 32) as u32
    } else {
        c as u32
    }
}

/// Two characters are equal when ASCII case is ignored.
pub open spec fn chars_match(a: char, b: char) -> bool {
    ascii_fold(a) == ascii_fold(b)
}

pub open spec fn min3(x: nat, y: nat, z: nat) -> nat {
    if x <= y && x <= z {
        x
    } else if y <= z {
        y
    } else {
        z
    }
}

/// Edit distance between the first `i` characters of `a` and the first `j`
/// characters of `b`, ignoring ASCII case.
pub open spec fn edit_distance(a: Seq<char>, b: Seq<char>, i: nat, j: nat) -> nat
    decreases i + j,
{
    if i == 0 {
        j
    } else if j == 0 {
        i
    } else if chars_match(a[i - 1], b[j - 1]) {
        edit_distance(a, b, (i - 1) as nat, (j - 1) as nat)
    } else {
        1 + min3(
            edit_distance(a, b, i, (j - 1) as nat),
            edit_distance(a, b, (i - 1) as nat, j),
            edit_distance(a, b, (i - 1) as nat, (j - 1) as nat),
        )
    }
}

/// Levenshtein distance of two words, ignoring ASCII case.
pub open spec fn levenshtein(a: Seq<char>, b: Seq<char>) -> nat {
    edit_distance(a, b, a.len(), b.len())
}

/// `b` is `a` with some letters changed in ASCII case only.
pub open spec fn case_variant(a: Seq<char>, b: Seq<char>) -> bool {
    &&& a.len() == b.len()
    &&& forall|k: int| 0 <= k < a.len() ==> chars_match(#[trigger] a[k], b[k])
}

pub open spec fn max_nat(x: nat, y: nat) -> nat {
    if x >= y {
        x
    } else {
        y
    }
}

proof fn lemma_edit_distance_bound(a: Seq<char>, b: Seq<char>, i: nat, j: nat)
    ensures
        edit_distance(a, b, i, j) <= max_nat(i, j),
    decreases i + j,
{
    if i > 0 && j > 0 {
        lemma_edit_distance_bound(a, b, (i - 1) as nat, (j - 1) as nat);
        if !chars_match(a[i - 1], b[j - 1]) {
            lemma_edit_distance_bound(a, b, i, (j - 1) as nat);
            lemma_edit_distance_bound(a, b, (i - 1) as nat, j);
        }
    }
}

proof fn lemma_edit_distance_symmetric(a: Seq<char>, b: Seq<char>, i: nat, j: nat)
    ensures
        edit_distance(a, b, i, j) == edit_distance(b, a, j, i),
    decreases i + j,
{
    if i > 0 && j > 0 {
        lemma_edit_distance_symmetric(a, b, (i - 1) as nat, (j - 1) as nat);
        lemma_edit_distance_symmetric(a, b, i, (j - 1) as nat);
        lemma_edit_distance_symmetric(a, b, (i - 1) as nat, j);
    }
}

proof fn lemma_edit_distance_case_variant(a: Seq<char>, a2: Seq<char>, b: Seq<char>, i: nat, j: nat)
    requires
        case_variant(a, a2),
        i <= a.len(),
    ensures
        edit_distance(a, b, i, j) == edit_distance(a2, b, i, j),
    decreases i + j,
{
    if i > 0 && j > 0 {
        assert(chars_match(a[i - 1], a2[i - 1]));
        lemma_edit_distance_case_variant(a, a2, b, (i - 1) as nat, (j - 1) as nat);
        lemma_edit_distance_case_variant(a, a2, b, i, (j - 1) as nat);
        lemma_edit_distance_case_variant(a, a2, b, (i - 1) as nat, j);
    }
}

/// Levenshtein distance does not depend on the order of its arguments.
pub proof fn lemma_levenshtein_symmetric(a: Seq<char>, b: Seq<char>)
    ensures
        levenshtein(a, b) == levenshtein(b, a),
{
    lemma_edit_distance_symmetric(a, b, a.len(), b.len());
}

/// Levenshtein distance does not change when letters of either word change
/// in ASCII case.
pub proof fn lemma_levenshtein_ignores_case(a: Seq<char>, a2: Seq<char>, b: Seq<char>, b2: Seq<char>)
    requires
        case_variant(a, a2),
        case_variant(b, b2),
    ensures
        levenshtein(a, b) == levenshtein(a2, b2),
{
    lemma_edit_distance_case_variant(a, a2, b, a.len(), b.len());
    lemma_edit_distance_symmetric(a2, b, a.len(), b.len());
    lemma_edit_distance_case_variant(b, b2, a2, b.len(), a.len());
    lemma_edit_distance_symmetric(a2, b2, a.len(), b.len());
}

/// The characters of `s`, in order.
pub fn chars_of(s: &str) -> (v: Vec<char>)
    ensures
        v@ == s@,
{
    let n = s.unicode_len();
    let mut v: Vec<char> = Vec::new();
    let mut i: usize = 0;
    while i < n
        invariant
            n == s@.len(),
            i <= n,
            v@ == s@.subrange(0, i as int),
        decreases n - i,
    {
        v.push(s.get_char(i));
        i += 1;
    }
    assert(v@ =~= s@);
    v
}

fn fold_char(c: char) -> (r: u32)
    ensures
        r == ascii_fold(c),
{
    if 'A' <= c && c <= 'Z' {
        (c as u32) + 32
    } else {
        c as u32
    }
}

/// Levenshtein distance of `a` and `b`, ignoring ASCII case.
pub fn levenshtein_distance(a: &str, b: &str) -> (r: usize)
    ensures
        r == levenshtein(a@, b@),
{
    let w1 = chars_of(a);
    let w2 = chars_of(b);
    let la = w1.len();
    let lb = w2.len();
    let ghost sa = w1@;
    let ghost sb = w2@;

    let mut prev: Vec<usize> = Vec::new();
    let mut i: usize = 0;
    loop
        invariant_except_break
            la == sa.len(),
            i <= la,
            prev.len() == i,
            forall|k: int| 0 <= k < i ==> #[trigger] prev[k] == edit_distance(sa, sb, k as nat, 0),
        ensures
            prev.len() == la + 1,
            forall|k: int| 0 <= k <= la ==> #[trigger] prev[k] == edit_distance(sa, sb, k as nat, 0),
        decreases la - i,
    {
        prev.push(i);
        if i == la {
            break;
        }
        i += 1;
    }

    let mut j: usize = 0;
    while j < lb
        invariant
            la == sa.len(),
            lb == sb.len(),
            sa == w1@,
            sb == w2@,
            j <= lb,
            prev.len() == la + 1,
            forall|k: int|
                0 <= k <= la ==> #[trigger] prev[k] == edit_distance(sa, sb, k as nat, j as nat),
        decreases lb - j,
    {
        let mut cur: Vec<usize> = Vec::new();
        cur.push(j + 1);
        let mut i: usize = 0;
        while i < la
            invariant
                la == sa.len(),
                lb == sb.len(),
                sa == w1@,
                sb == w2@,
                j < lb,
                i <= la,
                prev.len() == la + 1,
                forall|k: int|
                    0 <= k <= la ==> #[trigger] prev[k] == edit_distance(sa, sb, k as nat, j as nat),
                cur.len() == i + 1,
                forall|k: int|
                    0 <= k <= i ==> #[trigger] cur[k] == edit_distance(
                        sa,
                        sb,
                        k as nat,
                        (j + 1) as nat,
                    ),
            decreases la - i,
        {
            proof {
                lemma_edit_distance_bound(sa, sb, i as nat, j as nat);
            }
            let x: usize = if fold_char(w1[i]) == fold_char(w2[j]) {
                prev[i]
            } else {
                let left = cur[i];
                let up = prev[i + 1];
                let diag = prev[i];
                let m = if left <= up && left <= diag {
                    left
                } else if up <= diag {
                    up
                } else {
                    diag
                };
                1 + m
            };
            cur.push(x);
            i += 1;
        }
        prev = cur;
        j += 1;
    }
    prev[la]
}

/// A guess is close to the word when it is at most one edit away.
pub open spec fn very_close(a: Seq<char>, b: Seq<char>) -> bool {
    levenshtein(a, b) <= 1
}

pub fn is_very_close_to(a: &str, b: &str) -> (r: bool)
    ensures
        r == very_close(a@, b@),
{
    levenshtein_distance(a, b) <= 1
}


/// The word at `position` of a word list that restarts at its end, and the
/// position after it.
pub fn pick_next(words: &Vec<String>, position: &mut usize) -> (w: String)
    requires
        words@.len() > 0,
        *old(position) < words@.len(),
    ensures
        w@ == words@[*old(position) as int]@,
        *final(position) == if *old(position) + 1 == words@.len() {
            0
        } else {
            *old(position) + 1
        },
{
    let n = words.len();
    let w = words[*position].clone();
    *position = if *position + 1 == n {
        0
    } else {
        *position + 1
    };
    w
}

} // verus!
