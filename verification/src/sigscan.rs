use vstd::prelude::*;
use vstd::string::StrSliceExecFns;
use crate::errors::ScanError;

verus! {

/// One cell of a compiled pattern: an exact byte or a wildcard.
#[derive(Clone, Copy, Debug, PartialEq, Eq, Structural)]
pub enum PatternCell {
    /// the haystack byte must equal this value
    Byte(u8),
    /// any haystack byte matches
    Any,
}

/// Whether `c` is a hexadecimal digit.
pub open spec fn is_hex_digit(c: char) -> bool {
    ('0' as u32 <= c as u32 && c as u32 <= '9' as u32) || ('a' as u32 <= c as u32 && c as u32
        <= 'f' as u32) || ('A' as u32 <= c as u32 && c as u32 <= 'F' as u32)
}

/// The value of a hexadecimal digit.
pub open spec fn hex_val(c: char) -> u8 {
    if '0' as u32 <= c as u32 && c as u32 <= '9' as u32 {
        (c as u32 - '0' as u32) as u8
    } else if 'a' as u32 <= c as u32 && c as u32 <= 'f' as u32 {
        (c as u32 - 'a' as u32 + 10) as u8
    } else {
        (c as u32 - 'A' as u32 + 10) as u8
    }
}

/// Number of tokens a well-formed pattern of this length holds.
pub open spec fn n_tokens(s: Seq<char>) -> int {
    s.len() as int / 3 + 1
}

/// Whether token `k` is the wildcard marker `??`.
pub open spec fn token_is_wild(s: Seq<char>, k: int) -> bool {
    s[3 * k] == '?' && s[3 * k + 1] == '?'
}

/// Whether token `k` is a valid token: the wildcard marker or two
/// hexadecimal digits.
pub open spec fn token_ok(s: Seq<char>, k: int) -> bool {
    token_is_wild(s, k) || (is_hex_digit(s[3 * k]) && is_hex_digit(s[3 * k + 1]))
}

/// Whether token `k` is followed by the separating space.
pub open spec fn sep_ok(s: Seq<char>, k: int) -> bool {
    s[3 * k + 2] == ' '
}

/// The pattern grammar: one or more two-character tokens — two hexadecimal
/// digits for an exact byte, or the wildcard marker `??` — separated by
/// single spaces.
pub open spec fn pattern_wf(s: Seq<char>) -> bool {
    &&& s.len() % 3 == 2
    &&& forall|k: int| 0 <= k < n_tokens(s) ==> #[trigger] token_ok(s, k)
    &&& forall|k: int| 0 <= k < n_tokens(s) - 1 ==> #[trigger] sep_ok(s, k)
}

/// The byte value token `k` names.
pub open spec fn token_byte(s: Seq<char>, k: int) -> u8 {
    (hex_val(s[3 * k]) * 16 + hex_val(s[3 * k + 1])) as u8
}

/// The cell token `k` compiles to.
pub open spec fn cell_at(s: Seq<char>, k: int) -> PatternCell {
    if token_is_wild(s, k) {
        PatternCell::Any
    } else {
        PatternCell::Byte(token_byte(s, k))
    }
}

/// The cells a well-formed pattern compiles to, in token order.
pub open spec fn cells_of(s: Seq<char>) -> Seq<PatternCell> {
    Seq::new(n_tokens(s) as nat, |k: int| cell_at(s, k))
}

/// Whether haystack byte `b` satisfies cell `c`.
pub open spec fn cell_matches(c: PatternCell, b: u8) -> bool {
    match c {
        PatternCell::Any => true,
        PatternCell::Byte(x) => b == x,
    }
}

/// Whether the pattern `cells` matches the haystack at offset `i`: the
/// window fits and every cell is a wildcard or equals the byte under it.
pub open spec fn matches_at(hay: Seq<u8>, cells: Seq<PatternCell>, i: int) -> bool {
    &&& 0 <= i
    &&& i + cells.len() <= hay.len()
    &&& forall|j: int| 0 <= j < cells.len() ==> #[trigger] cell_matches(cells[j], hay[i + j])
}

/// The value of a hexadecimal digit, or nothing for any other character.
fn hex_digit_value(c: char) -> (r: Option<u8>)
    ensures
        r is Some <==> is_hex_digit(c),
        r matches Some(v) ==> v == hex_val(c) && v <= 15,
{
    let v = c as u32;
    if 48 <= v && v <= 57 {
        Some((v - 48) as u8)
    } else if 97 <= v && v <= 102 {
        Some((v - 97 + 10) as u8)
    } else if 65 <= v && v <= 70 {
        Some((v - 65 + 10) as u8)
    } else {
        None
    }
}

/// A compiled wildcarded byte pattern. Immutable once compiled and
/// reusable across any number of scans.
#[derive(Debug)]
pub struct Pattern {
    cells: Vec<PatternCell>,
}

impl View for Pattern {
    type V = Seq<PatternCell>;

    closed spec fn view(&self) -> Seq<PatternCell> {
        self.cells@
    }
}

impl Pattern {
    /// How many cells the pattern holds.
    pub fn len(&self) -> (r: usize)
        ensures
            r == self@.len(),
    {
        self.cells.len()
    }

    /// Compiles a pattern string. Succeeds exactly on well-formed patterns
    /// and yields their cells in token order; a malformed token fails
    /// compilation rather than matching anything.
    pub fn compile(s: &str) -> (r: Result<Pattern, ScanError>)
        ensures
            r is Ok <==> pattern_wf(s@),
            r matches Ok(p) ==> p@ == cells_of(s@),
            r matches Err(e) ==> e == ScanError::InvalidPattern,
    {
        let n = s.unicode_len();
        if n % 3 != 2 {
            return Err(ScanError::InvalidPattern);
        }
        let ntok = n / 3 + 1;
        let mut cells: Vec<PatternCell> = Vec::new();
        let mut k: usize = 0;
        while k < ntok
            invariant
                s@.len() == n,
                n % 3 == 2,
                ntok == n / 3 + 1,
                ntok == n_tokens(s@),
                k <= ntok,
                cells@.len() == k,
                forall|t: int| 0 <= t < k ==> #[trigger] token_ok(s@, t),
                forall|t: int| 0 <= t < k ==> cells@[t] == cell_at(s@, t),
                forall|t: int| 0 <= t < k && t < ntok - 1 ==> #[trigger] sep_ok(s@, t),
            decreases ntok - k,
        {
            proof {
                assert(3 * (k as int) + 2 < n || k == ntok - 1);
                assert(3 * (k as int) + 1 < n);
            }
            let c0 = s.get_char(3 * k);
            let c1 = s.get_char(3 * k + 1);
            if c0 == '?' && c1 == '?' {
                cells.push(PatternCell::Any);
            } else {
                let h0 = match hex_digit_value(c0) {
                    Some(v) => v,
                    None => {
                        proof {
                            assert(!token_ok(s@, k as int));
                        }
                        return Err(ScanError::InvalidPattern);
                    },
                };
                let h1 = match hex_digit_value(c1) {
                    Some(v) => v,
                    None => {
                        proof {
                            assert(!token_ok(s@, k as int));
                        }
                        return Err(ScanError::InvalidPattern);
                    },
                };
                cells.push(PatternCell::Byte(h0 * 16 + h1));
            }
            if k + 1 < ntok {
                let csep = s.get_char(3 * k + 2);
                if csep != ' ' {
                    proof {
                        assert(!sep_ok(s@, k as int));
                    }
                    return Err(ScanError::InvalidPattern);
                }
            }
            k += 1;
        }
        proof {
            assert(cells@ =~= cells_of(s@));
        }
        Ok(Pattern { cells })
    }

    /// Whether the pattern matches the haystack at offset `i`.
    fn check_at(&self, hay: &[u8], i: usize) -> (b: bool)
        requires
            i + self@.len() <= hay@.len(),
            hay@.len() <= usize::MAX as int,
        ensures
            b == matches_at(hay@, self@, i as int),
    {
        let mut j: usize = 0;
        while j < self.cells.len()
            invariant
                i + self@.len() <= hay@.len(),
                hay@.len() <= usize::MAX as int,
                j <= self@.len(),
                forall|t: int|
                    0 <= t < j ==> #[trigger] cell_matches(self@[t], hay@[i + t]),
            decreases self.cells.len() - j,
        {
            let matched = match self.cells[j] {
                PatternCell::Any => true,
                PatternCell::Byte(x) => hay[i + j] == x,
            };
            if !matched {
                proof {
                    assert(!cell_matches(self@[j as int], hay@[i + j]));
                }
                return false;
            }
            j += 1;
        }
        true
    }

    /// Scans the haystack and returns the lowest offset the pattern matches
    /// at, or nothing when it matches nowhere.
    pub fn find(&self, hay: &[u8]) -> (r: Option<usize>)
        ensures
            r matches Some(i) ==> matches_at(hay@, self@, i as int) && forall|j: int|
                0 <= j < i ==> !matches_at(hay@, self@, j),
            r is None ==> forall|i: int| !matches_at(hay@, self@, i),
    {
        let m = self.cells.len();
        let n = hay.len();
        if m > n {
            return None;
        }
        let mut i: usize = 0;
        while i <= n - m
            invariant
                m == self@.len(),
                n == hay@.len(),
                m <= n,
                i <= n - m + 1,
                forall|j: int| 0 <= j < i ==> !matches_at(hay@, self@, j),
            decreases n - m + 1 - i,
        {
            if self.check_at(hay, i) {
                return Some(i);
            }
            i += 1;
        }
        None
    }

    /// Scans the haystack and returns every offset the pattern matches at,
    /// in ascending order.
    pub fn find_all(&self, hay: &[u8]) -> (r: Vec<usize>)
        requires
            self@.len() > 0,
        ensures
            forall|k: int| 0 <= k < r@.len() ==> matches_at(hay@, self@, r@[k] as int),
            forall|k: int, l: int| 0 <= k < l < r@.len() ==> r@[k] < r@[l],
            forall|i: int|
                matches_at(hay@, self@, i) ==> exists|k: int| 0 <= k < r@.len() && r@[k] == i,
    {
        let m = self.cells.len();
        let n = hay.len();
        let mut out: Vec<usize> = Vec::new();
        if m > n {
            return out;
        }
        let mut i: usize = 0;
        while i <= n - m
            invariant
                m == self@.len(),
                n == hay@.len(),
                1 <= m <= n,
                i <= n - m + 1,
                forall|k: int| 0 <= k < out@.len() ==> matches_at(hay@, self@, out@[k] as int),
                forall|k: int, l: int| 0 <= k < l < out@.len() ==> out@[k] < out@[l],
                forall|k: int| 0 <= k < out@.len() ==> out@[k] < i,
                forall|j: int|
                    0 <= j < i && matches_at(hay@, self@, j) ==> exists|k: int|
                        0 <= k < out@.len() && out@[k] == j,
            decreases n - m + 1 - i,
        {
            let ghost out0 = out@;
            let hit = self.check_at(hay, i);
            if hit {
                out.push(i);
            }
            proof {
                assert forall|j: int|
                    0 <= j < i + 1 && matches_at(hay@, self@, j) implies exists|k: int|
                    0 <= k < out@.len() && out@[k] == j by {
                    if j == i {
                        assert(hit);
                        assert(out@[out@.len() - 1] == i);
                    } else {
                        let k = choose|k: int| 0 <= k < out0.len() && out0[k] == j;
                        assert(out@[k] == j);
                    }
                }
            }
            i += 1;
        }
        out
    }
}

} // verus!
