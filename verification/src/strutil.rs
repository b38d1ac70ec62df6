use vstd::prelude::*;

verus! {

/// The views of a sequence of owned strings.
pub open spec fn views_of(v: Seq<String>) -> Seq<Seq<char>> {
    v.map_values(|p: String| p@)
}

/// Index of the first comma in `s`, or `s.len()` where there is none.
pub open spec fn first_comma(s: Seq<char>) -> nat
    decreases s.len(),
{
    if s.len() == 0 {
        0
    } else if s[0] == ',' {
        0
    } else {
        1 + first_comma(s.drop_first())
    }
}

/// The fields of `s`, taken apart at every comma: splitting never drops a
/// character, keeps empty fields, and yields one field even for an empty
/// line, as a line-by-comma split does.
pub open spec fn split_commas(s: Seq<char>) -> Seq<Seq<char>>
    decreases s.len(),
{
    let i = first_comma(s) as int;
    if i >= s.len() {
        seq![s]
    } else {
        seq![s.take(i)] + split_commas(s.skip(i + 1))
    }
}

/// A position with no comma before it that sits on a comma (or at the end)
/// is exactly the first comma.
pub proof fn lemma_first_comma_is(s: Seq<char>, k: int)
    requires
        0 <= k <= s.len(),
        forall|j: int| 0 <= j < k ==> s[j] != ',',
        k < s.len() ==> s[k] == ',',
    ensures
        first_comma(s) == k,
    decreases s.len(),
{
    if s.len() == 0 {
    } else if s[0] == ',' {
        assert(k == 0);
    } else {
        assert(k != 0);
        assert forall|j: int| 0 <= j < k - 1 implies s.drop_first()[j] != ',' by {
            assert(s.drop_first()[j] == s[j + 1]);
        }
        if k - 1 < s.drop_first().len() {
            assert(s.drop_first()[k - 1] == s[k]);
        }
        lemma_first_comma_is(s.drop_first(), k - 1);
    }
}

/// The characters of a string, one by one, as an indexable vector.
pub fn chars_of(s: &str) -> (v: Vec<char>)
    ensures
        v@ == s@,
{
    let n = s.unicode_len();
    let mut v: Vec<char> = Vec::new();
    let mut i: usize = 0;
    proof {
        assert(v@ =~= s@.take(0));
    }
    while i < n
        invariant
            n == s@.len(),
            i <= n,
            v@ == s@.take(i as int),
        decreases n - i,
    {
        v.push(s.get_char(i));
        proof {
            assert(v@ =~= s@.take(i + 1));
        }
        i += 1;
    }
    proof {
        assert(s@.take(n as int) =~= s@);
    }
    v
}

/// Split each line of input into its comma-separated fields.
pub fn split_line(line: &str) -> (parts: Vec<String>)
    ensures
        views_of(parts@) == split_commas(line@),
{
    let n = line.unicode_len();
    let mut parts: Vec<String> = Vec::new();
    let mut start: usize = 0;
    let mut i: usize = 0;
    proof {
        assert(line@.skip(0) =~= line@);
        assert(views_of(parts@) + split_commas(line@) =~= split_commas(line@));
    }
    while i < n
        invariant
            n == line@.len(),
            start <= i <= n,
            forall|j: int| start <= j < i ==> line@[j] != ',',
            views_of(parts@) + split_commas(line@.skip(start as int)) == split_commas(line@),
        decreases n - i,
    {
        if line.get_char(i) == ',' {
            let field = String::from_str(line.substring_char(start, i));
            proof {
                let rest = line@.skip(start as int);
                assert forall|j: int| 0 <= j < i - start implies rest[j] != ',' by {
                    assert(rest[j] == line@[j + start]);
                }
                assert(rest[i - start] == line@[i as int]);
                lemma_first_comma_is(rest, i - start);
                assert(rest.take(i - start) =~= line@.subrange(start as int, i as int));
                assert(rest.skip(i - start + 1) =~= line@.skip(i + 1));
                assert(split_commas(rest) == seq![field@] + split_commas(line@.skip(i + 1)));
            }
            parts.push(field);
            proof {
                assert(views_of(parts@) =~= views_of(parts@.drop_last()) + seq![field@]);
                assert(views_of(parts@) + split_commas(line@.skip(i + 1)) =~= views_of(
                    parts@.drop_last(),
                ) + (seq![field@] + split_commas(line@.skip(i + 1))));
            }
            start = i + 1;
        }
        i += 1;
    }
    let field = String::from_str(line.substring_char(start, n));
    proof {
        let rest = line@.skip(start as int);
        assert forall|j: int| 0 <= j < rest.len() implies rest[j] != ',' by {
            assert(rest[j] == line@[j + start]);
        }
        lemma_first_comma_is(rest, rest.len() as int);
        assert(rest =~= line@.subrange(start as int, n as int));
        assert(split_commas(rest) == seq![field@]);
    }
    parts.push(field);
    proof {
        assert(views_of(parts@) =~= views_of(parts@.drop_last()) + seq![field@]);
    }
    parts
}

} // verus!
