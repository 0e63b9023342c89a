//! The paged chooser: options are shown in fixed-size pages with a "More.."
//! control while further pages exist, and one line of numeric input either
//! selects an option, advances the page, or is rejected so the prompt repeats.
use vstd::prelude::*;
use vstd::string::*;

verus! {

/// Number of options shown on one page of the paged prompt.
pub const PAGE_SIZE: usize = 9;

/// `c` is a decimal digit.
pub open spec fn is_digit(c: char) -> bool {
    '0' <= c && c <= '9'
}

/// The value of the decimal digit `c`.
pub open spec fn digit_val(c: char) -> int {
    c as int - '0' as int
}

/// Every character of `s` is a decimal digit.
pub open spec fn all_digits(s: Seq<char>) -> bool {
    forall|i: int| 0 <= i < s.len() ==> is_digit(s[i])
}

/// The number denoted by a sequence of decimal digits, most significant
/// first.
pub open spec fn digits_val(s: Seq<char>) -> int
    decreases s.len(),
{
    if s.len() == 0 {
        0
    } else {
        digits_val(s.drop_last()) * 10 + digit_val(s.last())
    }
}

/// What parsing one prompt line as an unsigned number yields: the denoted
/// value when `s` is one or more decimal digits and the value fits in `u64`,
/// nothing otherwise.
pub open spec fn parse_u64_spec(s: Seq<char>) -> Option<u64> {
    if s.len() > 0 && all_digits(s) && digits_val(s) <= u64::MAX {
        Some(digits_val(s) as u64)
    } else {
        None
    }
}

/// A sequence of digits denotes a non-negative number.
pub proof fn lemma_digits_val_nonneg(s: Seq<char>)
    requires
        all_digits(s),
    ensures
        digits_val(s) >= 0,
    decreases s.len(),
{
    if s.len() > 0 {
        assert forall|i: int| 0 <= i < s.drop_last().len() implies is_digit(
            s.drop_last()[i],
        ) by {
            assert(s.drop_last()[i] == s[i]);
        }
        lemma_digits_val_nonneg(s.drop_last());
    }
}

/// Reading further digits never makes the denoted number smaller: the value
/// of a digit string is at least the value of any of its prefixes.
pub proof fn lemma_digits_val_extend(s: Seq<char>, j: int)
    requires
        0 <= j <= s.len(),
        all_digits(s),
    ensures
        digits_val(s) >= digits_val(s.take(j)),
    decreases s.len() - j,
{
    if j < s.len() {
        assert(s.take(j + 1).drop_last() =~= s.take(j));
        assert(s.take(j + 1).last() == s[j]);
        assert forall|i: int| 0 <= i < s.take(j).len() implies is_digit(s.take(j)[i]) by {
            assert(s.take(j)[i] == s[i]);
        }
        lemma_digits_val_nonneg(s.take(j));
        assert(digits_val(s.take(j + 1)) >= digits_val(s.take(j)));
        lemma_digits_val_extend(s, j + 1);
    } else {
        assert(s.take(j) =~= s);
    }
}

/// Parses one prompt line as an unsigned number: the denoted value when the
/// whole line is decimal digits and the value fits, nothing otherwise.
pub fn parse_index(s: &str) -> (r: Option<u64>)
    ensures
        r == parse_u64_spec(s@),
{
    let n = s.unicode_len();
    if n == 0 {
        return None;
    }
    let mut acc: u64 = 0;
    let mut i: usize = 0;
    while i < n
        invariant
            n == s@.len(),
            i <= n,
            all_digits(s@.take(i as int)),
            acc == digits_val(s@.take(i as int)),
        decreases n - i,
    {
        let c = s.get_char(i);
        proof {
            assert(s@.take(i + 1).drop_last() =~= s@.take(i as int));
            assert(s@.take(i + 1).last() == s@[i as int]);
        }
        if c < '0' || c > '9' {
            assert(!is_digit(s@[i as int]));
            assert(!all_digits(s@));
            return None;
        }
        let d: u64 = (c as u32 - '0' as u32) as u64;
        assert(d == digit_val(s@[i as int]));
        let stretched = match acc.checked_mul(10) {
            Some(x) => x.checked_add(d),
            None => None,
        };
        match stretched {
            Some(next) => {
                acc = next;
            },
            None => {
                assert(digits_val(s@.take(i + 1)) > u64::MAX);
                proof {
                    if all_digits(s@) {
                        lemma_digits_val_extend(s@, i + 1);
                    }
                }
                return None;
            },
        }
        i = i + 1;
    }
    proof {
        assert(s@.take(n as int) =~= s@);
    }
    Some(acc)
}

/// The position just past the last option shown on page `page` of `len`
/// options.
pub open spec fn page_end(len: int, page: int) -> int {
    if (page + 1) * (PAGE_SIZE as int) <= len {
        (page + 1) * (PAGE_SIZE as int)
    } else {
        len
    }
}

/// A further page exists after `page`.
pub open spec fn more_after(len: int, page: int) -> bool {
    (page + 1) * (PAGE_SIZE as int) < len
}

/// The options shown on page `page`: at most `PAGE_SIZE` entries starting at
/// `page * PAGE_SIZE`, in order.
pub fn page_slice(options: &Vec<String>, page: usize) -> (r: Vec<String>)
    requires
        (page as int) * (PAGE_SIZE as int) <= options@.len(),
    ensures
        r.deep_view() == options.deep_view().subrange(
            (page as int) * (PAGE_SIZE as int),
            page_end(options@.len() as int, page as int),
        ),
{
    let n = options.len();
    let start = page * PAGE_SIZE;
    let end = if n - start > PAGE_SIZE {
        start + PAGE_SIZE
    } else {
        n
    };
    let mut r: Vec<String> = Vec::new();
    let mut i: usize = start;
    while i < end
        invariant
            start <= i <= end <= options@.len(),
            r.deep_view() =~~= options.deep_view().subrange(start as int, i as int),
        decreases end - i,
    {
        let entry = options[i].clone();
        let ghost picked = entry@;
        let ghost pre = r.deep_view();
        proof {
            assert(picked == options.deep_view()[i as int]);
        }
        r.push(entry);
        proof {
            let post = r.deep_view();
            let want = options.deep_view().subrange(start as int, i + 1);
            assert(post.len() == pre.len() + 1);
            assert(pre.len() == i - start);
            assert(want.len() == i + 1 - start);
            assert forall|j: int| 0 <= j < post.len() implies post[j] == want[j] by {
                if j < pre.len() {
                    assert(post[j] == pre[j]);
                    assert(pre[j] == options.deep_view().subrange(start as int, i as int)[j]);
                } else {
                    assert(post[j] == picked);
                }
            }
            assert(post =~~= want);
        }
        i = i + 1;
    }
    proof {
        assert(end as int == page_end(options@.len() as int, page as int));
    }
    r
}

/// Whether a "More.." control belongs on page `page` of `len` options.
pub fn page_has_more(len: usize, page: usize) -> (b: bool)
    requires
        (page as int) * (PAGE_SIZE as int) <= len,
    ensures
        b == more_after(len as int, page as int),
{
    let start = page * PAGE_SIZE;
    len - start > PAGE_SIZE
}

/// What one line of prompt input does.
#[derive(Clone, Copy, PartialEq, Eq, Structural, Debug)]
pub enum ChoiceOutcome {
    /// A definite selection: an index into the full option list.
    Select(usize),
    /// Advance to the next page: "More.." was chosen.
    NextPage,
    /// Invalid input: prompt again on the same page.
    Again,
}

/// What one line of prompt input yields on page `page` of `len` options:
/// `0` advances the page while a further page exists, a number between 1 and
/// the count of options shown selects (1-based on the page, mapped back to
/// the full list), and anything else is rejected.
pub open spec fn choice_spec(input: Seq<char>, len: int, page: int) -> ChoiceOutcome {
    let start = page * (PAGE_SIZE as int);
    let shown = page_end(len, page) - start;
    match parse_u64_spec(input) {
        Option::None => ChoiceOutcome::Again,
        Option::Some(k) => if k == 0 {
            if more_after(len, page) {
                ChoiceOutcome::NextPage
            } else {
                ChoiceOutcome::Again
            }
        } else if k <= shown {
            ChoiceOutcome::Select((start + k - 1) as usize)
        } else {
            ChoiceOutcome::Again
        },
    }
}

/// Interprets one line of prompt input on page `page` of `len` options.
pub fn interpret_choice(input: &str, len: usize, page: usize) -> (r: ChoiceOutcome)
    requires
        (page as int) * (PAGE_SIZE as int) <= len,
    ensures
        r == choice_spec(input@, len as int, page as int),
        r matches ChoiceOutcome::Select(i) ==> (page as int) * (PAGE_SIZE as int) <= i < len,
        r is NextPage ==> ((page + 1) as int) * (PAGE_SIZE as int) < len,
{
    let start = page * PAGE_SIZE;
    let shown = if len - start > PAGE_SIZE {
        PAGE_SIZE
    } else {
        len - start
    };
    let more = len - start > PAGE_SIZE;
    match parse_index(input) {
        None => ChoiceOutcome::Again,
        Some(k) => {
            if k == 0 {
                if more {
                    ChoiceOutcome::NextPage
                } else {
                    ChoiceOutcome::Again
                }
            } else if k <= shown as u64 {
                ChoiceOutcome::Select(start + (k as usize) - 1)
            } else {
                ChoiceOutcome::Again
            }
        },
    }
}

/// `input` denotes an in-range choice on page `page` of `len` options: a
/// number between 1 and the count of options shown there.
pub open spec fn denotes_valid_choice(input: Seq<char>, len: int, page: int) -> bool {
    parse_u64_spec(input) matches Some(k) && 1 <= k && k <= page_end(len, page) - page * (
    PAGE_SIZE as int)
}

/// The chooser yields a selection exactly for the lines that denote an
/// in-range choice: non-numeric or out-of-range input never selects, so the
/// prompt is repeated until a valid line arrives.
pub proof fn lemma_selection_iff_valid(input: Seq<char>, len: int, page: int)
    ensures
        (choice_spec(input, len, page) is Select) <==> denotes_valid_choice(input, len, page),
{
}

} // verus!
