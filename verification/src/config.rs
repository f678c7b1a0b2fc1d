use vstd::prelude::*;
use vstd::string::*;

verus! {

/// The worker count used when the command line gives none.
pub const DEFAULT_THREADS: usize = 4;

/// The validated run parameters: the base URL to probe, the wordlist file
/// to read, and how many workers to run.
pub struct Config {
    pub url: String,
    pub wordlist: String,
    pub threads: usize,
}

impl Config {
    /// Validate the raw command-line values. The URL and the wordlist are
    /// required and missing ones are reported in that order; a missing
    /// thread count falls back to the default, never silently to anything
    /// else.
    pub fn new(url: Option<String>, wordlist: Option<String>, threads: Option<usize>) -> (r:
        Result<Config, &'static str>)
        ensures
            url is None ==> (r matches Err(e) && e@ == "missing URL"@),
            url is Some && wordlist is None ==> (r matches Err(e) && e@
                == "missing wordlist"@),
            r is Ok <==> url is Some && wordlist is Some,
            r matches Ok(c) ==> {
                &&& url matches Some(u) && c.url@ == u@
                &&& wordlist matches Some(w) && c.wordlist@ == w@
                &&& threads matches Some(t) ==> c.threads == t
                &&& threads is None ==> c.threads == DEFAULT_THREADS
            },
    {
        let url = match url {
            Some(u) => u,
            None => {
                return Err("missing URL");
            },
        };
        let wordlist = match wordlist {
            Some(w) => w,
            None => {
                return Err("missing wordlist");
            },
        };
        let threads = match threads {
            Some(t) => t,
            None => DEFAULT_THREADS,
        };
        Ok(Config { url, wordlist, threads })
    }
}

/// Whether `c` is a decimal digit.
pub open spec fn is_dec_digit(c: char) -> bool {
    48 <= c as u32 <= 57
}

/// The numeric value of a decimal digit.
pub open spec fn digit_val(c: char) -> int {
    c as u32 - 48
}

/// Whether every character of `s` is a decimal digit.
pub open spec fn all_dec_digits(s: Seq<char>) -> bool {
    forall|i: int| 0 <= i < s.len() ==> is_dec_digit(s[i])
}

/// The number a string of decimal digits denotes.
pub open spec fn dec_val(s: Seq<char>) -> int
    decreases s.len(),
{
    if s.len() == 0 {
        0
    } else {
        dec_val(s.drop_last()) * 10 + digit_val(s.last())
    }
}

proof fn lemma_dec_val_nonneg(s: Seq<char>)
    requires
        all_dec_digits(s),
    ensures
        dec_val(s) >= 0,
    decreases s.len(),
{
    if s.len() > 0 {
        assert(all_dec_digits(s.drop_last()));
        lemma_dec_val_nonneg(s.drop_last());
    }
}

proof fn lemma_dec_val_take_le(s: Seq<char>, k: int)
    requires
        all_dec_digits(s),
        0 <= k <= s.len(),
    ensures
        dec_val(s.take(k)) <= dec_val(s),
    decreases s.len() - k,
{
    if k < s.len() {
        assert(s.take(k + 1).drop_last() =~= s.take(k));
        assert(s.take(k + 1).last() == s[k]);
        assert(all_dec_digits(s.take(k)));
        lemma_dec_val_nonneg(s.take(k));
        assert(dec_val(s.take(k + 1)) == dec_val(s.take(k)) * 10 + digit_val(s[k]));
        lemma_dec_val_take_le(s, k + 1);
    } else {
        assert(s.take(k) =~= s);
    }
}

/// Parse a decimal thread count. Returns the value exactly when the
/// string is nonempty, all digits, and the number fits the machine;
/// anything else is rejected rather than guessed at.
pub fn parse_threads(s: &str) -> (r: Option<usize>)
    ensures
        r is Some <==> s@.len() > 0 && all_dec_digits(s@) && dec_val(s@) <= usize::MAX,
        r matches Some(v) ==> v == dec_val(s@),
{
    let len = s.unicode_len();
    if len == 0 {
        return None;
    }
    let mut val: usize = 0;
    let mut i: usize = 0;
    while i < len
        invariant
            i <= len,
            len == s@.len(),
            all_dec_digits(s@.take(i as int)),
            val == dec_val(s@.take(i as int)),
        decreases len - i,
    {
        let c = s.get_char(i);
        let cu = c as u32;
        if cu < 48 || cu > 57 {
            proof {
                assert(!is_dec_digit(s@[i as int]));
            }
            return None;
        }
        let d = (cu - 48) as usize;
        proof {
            assert(s@.take(i + 1 as int).drop_last() =~= s@.take(i as int));
            assert(s@.take(i + 1 as int).last() == s@[i as int]);
            assert(all_dec_digits(s@.take(i + 1 as int)));
            assert(dec_val(s@.take(i + 1 as int)) == val * 10 + d);
        }
        if val > (usize::MAX - d) / 10 {
            proof {
                assert(val * 10 + d > usize::MAX) by (nonlinear_arith)
                    requires
                        val > (usize::MAX - d) / 10,
                        0 <= d <= 9,
                        val >= 0,
                ;
                if all_dec_digits(s@) {
                    lemma_dec_val_take_le(s@, i + 1 as int);
                }
            }
            return None;
        }
        proof {
            assert(val * 10 + d <= usize::MAX) by (nonlinear_arith)
                requires
                    val <= (usize::MAX - d) / 10,
                    0 <= d <= 9,
                    val >= 0,
            ;
        }
        val = val * 10 + d;
        i += 1;
    }
    proof {
        assert(s@.take(len as int) =~= s@);
    }
    Some(val)
}

} // verus!
