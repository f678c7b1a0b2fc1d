use vstd::prelude::*;
use vstd::string::*;

verus! {

/// The full probe target for one wordlist entry: the base URL, a slash,
/// then the entry.
pub open spec fn spec_probe_path(url: Seq<char>, word: Seq<char>) -> Seq<char> {
    url + seq!['/'] + word
}

/// Join the base URL and one wordlist entry into the path to probe.
pub fn probe_path(url: &str, word: &str) -> (r: String)
    ensures
        r@ == spec_probe_path(url@, word@),
{
    proof {
        reveal_strlit("/");
        assert("/"@ =~= seq!['/']);
    }
    let mut s = String::from_str(url);
    s.append("/");
    s.append(word);
    s
}

/// One probe target per wordlist entry, in wordlist order.
pub fn build_paths(url: &str, words: &Vec<String>) -> (r: Vec<String>)
    ensures
        r@.len() == words@.len(),
        forall|i: int|
            0 <= i < words@.len() ==> r@[i]@ == spec_probe_path(url@, words@[i]@),
{
    let mut r: Vec<String> = Vec::new();
    let mut i: usize = 0;
    while i < words.len()
        invariant
            i <= words@.len(),
            r@.len() == i,
            forall|k: int| 0 <= k < i ==> r@[k]@ == spec_probe_path(url@, words@[k]@),
        decreases words@.len() - i,
    {
        r.push(probe_path(url, words[i].as_str()));
        i += 1;
    }
    r
}

/// A line with any trailing carriage return removed.
pub open spec fn strip_cr(l: Seq<char>) -> Seq<char> {
    if l.len() > 0 && l.last() == '\r' {
        l.drop_last()
    } else {
        l
    }
}

/// The position of the first line feed in `s`, or `s.len()` if none.
pub open spec fn first_nl(s: Seq<char>) -> nat
    decreases s.len(),
{
    if s.len() == 0 {
        0
    } else if s[0] == '\n' {
        0
    } else {
        1 + first_nl(s.drop_first())
    }
}

/// The lines of a text, split on line feeds, each without its line
/// ending (a trailing carriage return goes with it); a final line feed
/// ends the last line rather than opening an empty one.
pub open spec fn spec_lines(s: Seq<char>) -> Seq<Seq<char>>
    decreases s.len(),
{
    if s.len() == 0 {
        Seq::empty()
    } else {
        let i = first_nl(s);
        if i >= s.len() {
            seq![strip_cr(s)]
        } else {
            seq![strip_cr(s.take(i as int))] + spec_lines(s.skip(i + 1 as int))
        }
    }
}

proof fn lemma_first_nl_is(s: Seq<char>, k: int)
    requires
        0 <= k <= s.len(),
        forall|j: int| 0 <= j < k ==> s[j] != '\n',
        k < s.len() ==> s[k] == '\n',
    ensures
        first_nl(s) == k,
    decreases s.len(),
{
    if s.len() > 0 && k > 0 {
        assert(s[0] != '\n');
        assert forall|j: int| 0 <= j < k - 1 implies s.drop_first()[j] != '\n' by {
            assert(s.drop_first()[j] == s[j + 1]);
        }
        lemma_first_nl_is(s.drop_first(), k - 1);
    }
}

/// Take the text between `from` and `to`, shorn of a trailing carriage
/// return: one line of the wordlist.
fn extract_line(text: &str, from: usize, to: usize) -> (r: String)
    requires
        from <= to <= text@.len(),
    ensures
        r@ == strip_cr(text@.subrange(from as int, to as int)),
{
    let sub = if to > from && text.get_char(to - 1) == '\r' {
        proof {
            assert(text@.subrange(from as int, to as int).drop_last() =~= text@.subrange(
                from as int,
                to - 1 as int,
            ));
        }
        text.substring_char(from, to - 1)
    } else {
        text.substring_char(from, to)
    };
    String::from_str(sub)
}

/// Split the loaded wordlist into its lines, exactly as `spec_lines`
/// describes them.
pub fn split_lines(text: &str) -> (r: Vec<String>)
    ensures
        r@.map_values(|s: String| s@) == spec_lines(text@),
{
    let len = text.unicode_len();
    let mut r: Vec<String> = Vec::new();
    let mut start: usize = 0;
    let mut i: usize = 0;
    proof {
        assert(text@.skip(0) =~= text@);
        assert(r@.map_values(|s: String| s@) + spec_lines(text@) =~~= spec_lines(text@));
    }
    while i < len
        invariant
            start <= i <= len,
            len == text@.len(),
            forall|j: int| start <= j < i ==> text@[j] != '\n',
            spec_lines(text@) == r@.map_values(|s: String| s@) + spec_lines(
                text@.skip(start as int),
            ),
        decreases len - i,
    {
        let c = text.get_char(i);
        if c == '\n' {
            let ghost rest = text@.skip(start as int);
            proof {
                assert forall|j: int| 0 <= j < i - start implies rest[j] != '\n' by {
                    assert(rest[j] == text@[start + j]);
                }
                assert(rest[i - start] == text@[i as int]);
                lemma_first_nl_is(rest, i - start);
                assert(rest.take(i - start) =~= text@.subrange(start as int, i as int));
                assert(rest.skip(i - start + 1) =~= text@.skip(i + 1 as int));
            }
            let line = extract_line(text, start, i);
            proof {
                assert(r@.push(line).map_values(|s: String| s@) =~~= r@.map_values(
                    |s: String| s@,
                ).push(line@));
                assert(spec_lines(text@) =~~= r@.push(line).map_values(|s: String| s@)
                    + spec_lines(text@.skip(i + 1 as int)));
            }
            r.push(line);
            start = i + 1;
        }
        i += 1;
    }
    if start < len {
        let ghost rest = text@.skip(start as int);
        proof {
            assert forall|j: int| 0 <= j < len - start implies rest[j] != '\n' by {
                assert(rest[j] == text@[start + j]);
            }
            lemma_first_nl_is(rest, len - start);
            assert(rest =~= text@.subrange(start as int, len as int));
        }
        let line = extract_line(text, start, len);
        proof {
            assert(r@.push(line).map_values(|s: String| s@) =~~= r@.map_values(
                |s: String| s@,
            ).push(line@));
            assert(spec_lines(rest) =~~= seq![line@]);
            assert(spec_lines(text@) =~~= r@.push(line).map_values(|s: String| s@));
        }
        r.push(line);
    } else {
        proof {
            assert(text@.skip(start as int) =~= Seq::<char>::empty());
            assert(spec_lines(text@) =~~= r@.map_values(|s: String| s@));
        }
    }
    r
}

/// The status class that counts as a hit: HTTP OK.
pub open spec fn is_ok_status(code: u16) -> bool {
    code == 200
}

/// Decide whether one probe outcome is reported.
pub fn status_matches(code: u16) -> (r: bool)
    ensures
        r == is_ok_status(code),
{
    code == 200
}

/// The paths whose probe came back OK, in probe order.
pub open spec fn spec_matched(paths: Seq<Seq<char>>, statuses: Seq<u16>) -> Seq<Seq<char>>
    decreases paths.len(),
{
    if paths.len() == 0 || statuses.len() == 0 {
        Seq::empty()
    } else {
        (if is_ok_status(statuses[0]) {
            seq![paths[0]]
        } else {
            Seq::empty()
        }) + spec_matched(paths.drop_first(), statuses.drop_first())
    }
}

proof fn lemma_matched_take(paths: Seq<Seq<char>>, statuses: Seq<u16>, i: int)
    requires
        paths.len() == statuses.len(),
        0 <= i < paths.len(),
    ensures
        spec_matched(paths.take(i + 1), statuses.take(i + 1)) == spec_matched(
            paths.take(i),
            statuses.take(i),
        ) + (if is_ok_status(statuses[i]) {
            seq![paths[i]]
        } else {
            Seq::<Seq<char>>::empty()
        }),
    decreases i,
{
    let hit = if is_ok_status(statuses[i]) {
        seq![paths[i]]
    } else {
        Seq::<Seq<char>>::empty()
    };
    if i == 0 {
        reveal_with_fuel(spec_matched, 2);
        assert(paths.take(1).drop_first() =~= Seq::<Seq<char>>::empty());
        assert(statuses.take(1).drop_first() =~= Seq::<u16>::empty());
        assert(paths.take(0) =~= Seq::<Seq<char>>::empty());
        assert(statuses.take(0) =~= Seq::<u16>::empty());
        assert(paths.take(1)[0] == paths[0]);
        assert(statuses.take(1)[0] == statuses[0]);
        assert(spec_matched(paths.take(1), statuses.take(1)) =~~= spec_matched(
            paths.take(0),
            statuses.take(0),
        ) + hit);
    } else {
        lemma_matched_take(paths.drop_first(), statuses.drop_first(), i - 1);
        assert(paths.take(i + 1).drop_first() =~= paths.drop_first().take(i));
        assert(statuses.take(i + 1).drop_first() =~= statuses.drop_first().take(i));
        assert(paths.take(i).drop_first() =~= paths.drop_first().take(i - 1));
        assert(statuses.take(i).drop_first() =~= statuses.drop_first().take(i - 1));
        assert(paths.drop_first()[i - 1] == paths[i]);
        assert(statuses.drop_first()[i - 1] == statuses[i]);
        assert(spec_matched(paths.take(i + 1), statuses.take(i + 1)) =~~= spec_matched(
            paths.take(i),
            statuses.take(i),
        ) + hit);
    }
}

/// Keep exactly the paths whose probe outcome was OK, in order. This is
/// the verified half of the report step: the probe itself hands back one
/// status per path, and this function decides what is printed.
pub fn matched_paths(paths: &Vec<String>, statuses: &Vec<u16>) -> (r: Vec<String>)
    requires
        paths@.len() == statuses@.len(),
    ensures
        r@.map_values(|s: String| s@) == spec_matched(
            paths@.map_values(|s: String| s@),
            statuses@,
        ),
{
    let ghost pviews = paths@.map_values(|s: String| s@);
    let mut r: Vec<String> = Vec::new();
    let mut i: usize = 0;
    proof {
        assert(r@.map_values(|s: String| s@) =~~= spec_matched(
            pviews.take(0),
            statuses@.take(0),
        ));
    }
    while i < paths.len()
        invariant
            i <= paths@.len(),
            paths@.len() == statuses@.len(),
            pviews == paths@.map_values(|s: String| s@),
            r@.map_values(|s: String| s@) == spec_matched(
                pviews.take(i as int),
                statuses@.take(i as int),
            ),
        decreases paths@.len() - i,
    {
        let ghost rprev = r@;
        if status_matches(statuses[i]) {
            r.push(paths[i].clone());
        }
        proof {
            lemma_matched_take(pviews, statuses@, i as int);
            assert(r@.map_values(|s: String| s@) =~~= spec_matched(
                pviews.take(i + 1 as int),
                statuses@.take(i + 1 as int),
            ));
        }
        i += 1;
    }
    proof {
        assert(pviews.take(paths@.len() as int) =~= pviews);
        assert(statuses@.take(statuses@.len() as int) =~= statuses@);
    }
    r
}

} // verus!
