//! Where the filter parser cuts a directive, and whether every cut falls
//! between two characters.
//!
//! The parser of `tracing_subscriber` splits the text at commas. It walks each
//! piece without the white space around it, and cuts the piece, white space
//! included, at the byte offsets it met on the way. With white space in front,
//! such an offset may lie inside a character, and the cut then panics. The
//! functions here follow the walk and tell, before the parser is called,
//! whether all its cuts are sound.

use vstd::prelude::*;
use vstd::string::*;

verus! {

/// Whether `c` is white space, as Unicode defines it.
pub open spec fn is_blank(c: char) -> bool {
    let code = c as u32;
    ||| 0x09 <= code && code <= 0x0d
    ||| code == 0x20
    ||| code == 0x85
    ||| code == 0xa0
    ||| code == 0x1680
    ||| 0x2000 <= code && code <= 0x200a
    ||| code == 0x2028
    ||| code == 0x2029
    ||| code == 0x202f
    ||| code == 0x205f
    ||| code == 0x3000
}

/// The number of bytes that `c` takes in UTF-8.
pub open spec fn utf8_len(c: char) -> nat {
    let code = c as u32;
    if code < 0x80 {
        1
    } else if code < 0x800 {
        2
    } else if code < 0x10000 {
        3
    } else {
        4
    }
}

/// The number of bytes that `s` takes in UTF-8.
pub open spec fn byte_len(s: Seq<char>) -> nat
    decreases s.len(),
{
    if s.len() == 0 {
        0
    } else {
        byte_len(s.drop_last()) + utf8_len(s.last())
    }
}

/// Whether the byte offset `p` lies between two characters of `s`, in front
/// of the first or behind the last.
pub open spec fn is_boundary(s: Seq<char>, p: nat) -> bool {
    exists|m: int| 0 <= m <= s.len() && #[trigger] byte_len(s.subrange(0, m)) == p
}

/// How far the parser has come in a directive.
#[derive(Debug, Clone, Copy, PartialEq, Eq)]
pub enum Place {
    /// In front of the first character.
    Start,
    /// In the leading word, a target or a level.
    Name,
    /// In a span's name, behind `[`.
    Span,
    /// In a field, behind `{`.
    Field,
    /// Behind the fields' closing `}`.
    Fields,
    /// Behind a span's closing `]`.
    Target,
    /// In the level, behind `=`.
    Level,
    /// The parser has given up: it cuts no more.
    Stopped,
}

/// The parser's state on its walk through a directive.
#[derive(Debug, Clone, Copy, PartialEq, Eq)]
pub struct Walk {
    /// How far it has come.
    pub place: Place,
    /// The offset at which the part it is in began.
    pub mark: u128,
    /// Whether every cut so far fell between two characters.
    pub clean: bool,
}

/// Whether the cut of `piece` from the offset `from` to the offset `to` is sound.
pub open spec fn cut_is_clean(piece: Seq<char>, from: u128, to: u128) -> bool {
    is_boundary(piece, from as nat) && is_boundary(piece, to as nat)
}

/// The state after the character `c`, met at the offset `at`. Where the
/// parser may fail for a reason of the grammar, the walk goes on as if it had
/// not: it then looks at cuts that the parser never makes, and at every cut
/// that it does make.
pub open spec fn next_walk(piece: Seq<char>, walk: Walk, c: char, at: u128) -> Walk {
    let after = (at + 1) as u128;
    let cut = walk.clean && cut_is_clean(piece, walk.mark, at);
    match walk.place {
        Place::Start => if c == '[' {
            Walk { place: Place::Span, mark: after, clean: walk.clean }
        } else {
            Walk { place: Place::Name, mark: at, clean: walk.clean }
        },
        Place::Name => if c == '=' {
            Walk { place: Place::Level, mark: after, clean: cut }
        } else if c == '[' {
            Walk { place: Place::Span, mark: after, clean: cut }
        } else {
            walk
        },
        Place::Span => if c == ']' {
            Walk { place: Place::Target, mark: after, clean: cut }
        } else if c == '{' {
            Walk { place: Place::Field, mark: after, clean: cut }
        } else {
            walk
        },
        Place::Field => if c == '}' {
            Walk { place: Place::Fields, mark: after, clean: cut }
        } else {
            walk
        },
        Place::Fields => if c == ']' {
            Walk { place: Place::Target, mark: after, clean: walk.clean }
        } else {
            Walk { place: Place::Stopped, mark: after, clean: walk.clean }
        },
        Place::Target => if c == '=' {
            Walk { place: Place::Level, mark: after, clean: walk.clean }
        } else {
            Walk { place: Place::Stopped, mark: after, clean: walk.clean }
        },
        Place::Level | Place::Stopped => walk,
    }
}

/// The state after the characters of `piece` from index `lead` up to, not
/// including, index `upto`; offsets count from the character at `lead`.
pub open spec fn walked(piece: Seq<char>, lead: int, upto: int) -> Walk
    decreases upto - lead,
{
    if upto <= lead {
        Walk { place: Place::Start, mark: 0, clean: true }
    } else {
        next_walk(
            piece,
            walked(piece, lead, upto - 1),
            piece[upto - 1],
            byte_len(piece.subrange(lead, upto - 1)) as u128,
        )
    }
}

/// Whether a walk that ends in `walk` made sound cuts only, the last one
/// included: the leading word or the level, cut from its mark to the end.
pub open spec fn ends_clean(piece: Seq<char>, walk: Walk) -> bool {
    walk.clean && (walk.place is Name || walk.place is Level ==> is_boundary(
        piece,
        walk.mark as nat,
    ))
}

/// Whether `k` is the index of the first character of `piece` that is not
/// white space, or the length of `piece` where all of it is.
pub open spec fn is_lead(piece: Seq<char>, k: int) -> bool {
    &&& 0 <= k <= piece.len()
    &&& forall|j: int| 0 <= j < k ==> is_blank(#[trigger] piece[j])
    &&& k < piece.len() ==> !is_blank(piece[k])
}

/// Whether the parser's cuts of the directive `piece` are all sound.
pub open spec fn piece_is_clean(piece: Seq<char>) -> bool {
    forall|k: int| #[trigger] is_lead(piece, k) ==> ends_clean(piece, walked(piece, k, piece.len() as int))
}

/// Whether the characters of `text` from index `a` up to index `b` are one of
/// the pieces that the commas part it into.
pub open spec fn is_piece(text: Seq<char>, a: int, b: int) -> bool {
    &&& 0 <= a <= b <= text.len()
    &&& a == 0 || text[a - 1] == ','
    &&& b == text.len() || text[b] == ','
    &&& forall|k: int| a <= k < b ==> #[trigger] text[k] != ','
}

/// Whether the parser's cuts of `text` are all sound, in every directive.
pub open spec fn all_cuts_clean(text: Seq<char>) -> bool {
    forall|a: int, b: int| #[trigger] is_piece(text, a, b) ==> piece_is_clean(text.subrange(a, b))
}

/// One more character adds its bytes.
pub proof fn lemma_byte_len_step(s: Seq<char>, a: int, b: int)
    requires
        0 <= a <= b < s.len(),
    ensures
        byte_len(s.subrange(a, b + 1)) == byte_len(s.subrange(a, b)) + utf8_len(s[b]),
{
    assert(s.subrange(a, b + 1).drop_last() =~= s.subrange(a, b));
}

/// A longer prefix has no fewer bytes.
pub proof fn lemma_byte_len_grows(s: Seq<char>, a: int, b: int)
    requires
        0 <= a <= b <= s.len(),
    ensures
        byte_len(s.subrange(0, a)) <= byte_len(s.subrange(0, b)),
    decreases b - a,
{
    if a < b {
        lemma_byte_len_grows(s, a, b - 1);
        lemma_byte_len_step(s, 0, b - 1);
    }
}

/// No character takes more than four bytes.
pub proof fn lemma_byte_len_bound(s: Seq<char>)
    ensures
        byte_len(s) <= 4 * s.len(),
    decreases s.len(),
{
    if s.len() > 0 {
        lemma_byte_len_bound(s.drop_last());
    }
}

/// On a directive with no white space in front, the walk makes sound cuts
/// only, and its mark lies between two characters until it stops.
pub proof fn lemma_walk_without_lead(piece: Seq<char>, upto: int)
    requires
        0 <= upto <= piece.len(),
        4 * piece.len() < u128::MAX,
    ensures
        walked(piece, 0, upto).clean,
        !(walked(piece, 0, upto).place is Stopped) ==> is_boundary(
            piece,
            walked(piece, 0, upto).mark as nat,
        ),
    decreases upto,
{
    if upto == 0 {
        assert(piece.subrange(0, 0) =~= Seq::<char>::empty());
        assert(byte_len(piece.subrange(0, 0)) == 0);
    } else {
        lemma_walk_without_lead(piece, upto - 1);
        lemma_byte_len_bound(piece.subrange(0, upto - 1));
        lemma_byte_len_bound(piece.subrange(0, upto));
        lemma_byte_len_step(piece, 0, upto - 1);
        let before = walked(piece, 0, upto - 1);
        let at = byte_len(piece.subrange(0, upto - 1));
        let c = piece[upto - 1];
        assert(is_boundary(piece, at));
        if utf8_len(c) == 1 {
            assert(byte_len(piece.subrange(0, upto)) == at + 1);
            assert(is_boundary(piece, at + 1));
        }
        assert(c == '=' || c == '[' || c == ']' || c == '{' || c == '}' ==> utf8_len(c) == 1);
    }
}

/// A directive with no white space in front has sound cuts only: white space
/// behind it, and characters outside ASCII anywhere in it, do no harm.
pub proof fn lemma_piece_without_lead_is_clean(piece: Seq<char>)
    requires
        is_lead(piece, 0),
        4 * piece.len() < u128::MAX,
    ensures
        piece_is_clean(piece),
{
    assert forall|k: int| #[trigger] is_lead(piece, k) implies ends_clean(
        piece,
        walked(piece, k, piece.len() as int),
    ) by {
        if k > 0 {
            assert(is_blank(piece[0]));
        }
        lemma_walk_without_lead(piece, piece.len() as int);
    }
}

/// A text in which no directive begins with white space has sound cuts only,
/// whatever else it holds.
pub proof fn lemma_text_without_leads_is_clean(text: Seq<char>)
    requires
        4 * text.len() < u128::MAX,
        forall|a: int, b: int| #[trigger] is_piece(text, a, b) && a < b ==> !is_blank(text[a]),
    ensures
        all_cuts_clean(text),
{
    assert forall|a: int, b: int| #[trigger] is_piece(text, a, b) implies piece_is_clean(
        text.subrange(a, b),
    ) by {
        let piece = text.subrange(a, b);
        if a < b {
            assert(piece[0] == text[a]);
        }
        assert(is_lead(piece, 0));
        lemma_piece_without_lead_is_clean(piece);
    }
}

/// Tells whether `c` is white space.
pub fn blank(c: char) -> (b: bool)
    ensures
        b == is_blank(c),
{
    let code: u32 = c as u32;
    (0x09 <= code && code <= 0x0d) || code == 0x20 || code == 0x85 || code == 0xa0 || code
        == 0x1680 || (0x2000 <= code && code <= 0x200a) || code == 0x2028 || code == 0x2029
        || code == 0x202f || code == 0x205f || code == 0x3000
}

/// Counts the bytes that `c` takes in UTF-8.
pub fn utf8_width(c: char) -> (n: u128)
    ensures
        n == utf8_len(c),
        1 <= n <= 4,
{
    let code: u32 = c as u32;
    if code < 0x80 {
        1
    } else if code < 0x800 {
        2
    } else if code < 0x10000 {
        3
    } else {
        4
    }
}

/// Tells whether the byte offset `p` lies between two characters of `text`.
pub fn on_boundary(text: &str, p: u128) -> (b: bool)
    ensures
        b == is_boundary(text@, p as nat),
{
    let n: usize = text.unicode_len();
    let mut m: usize = 0;
    let mut sum: u128 = 0;
    assert(text@.subrange(0, 0) =~= Seq::<char>::empty());
    while m < n && sum < p
        invariant
            n == text@.len(),
            m <= n,
            sum == byte_len(text@.subrange(0, m as int)),
            sum <= 4 * m,
            forall|j: int| 0 <= j < m ==> #[trigger] byte_len(text@.subrange(0, j)) < p,
        decreases n - m,
    {
        proof {
            lemma_byte_len_step(text@, 0, m as int);
        }
        sum = sum + utf8_width(text.get_char(m));
        m += 1;
    }
    if sum == p {
        true
    } else {
        assert forall|j: int| 0 <= j <= n implies #[trigger] byte_len(text@.subrange(0, j))
            != p by {
            if j >= m {
                lemma_byte_len_grows(text@, m as int, j);
            }
        }
        false
    }
}

/// Takes the walk one character further.
pub fn advance(piece: &str, walk: Walk, c: char, at: u128) -> (next: Walk)
    requires
        at < u128::MAX,
    ensures
        next == next_walk(piece@, walk, c, at),
{
    let after: u128 = at + 1;
    match walk.place {
        Place::Start => if c == '[' {
            Walk { place: Place::Span, mark: after, clean: walk.clean }
        } else {
            Walk { place: Place::Name, mark: at, clean: walk.clean }
        },
        Place::Name => if c == '=' || c == '[' {
            let cut: bool = walk.clean && on_boundary(piece, walk.mark) && on_boundary(piece, at);
            Walk { place: if c == '=' { Place::Level } else { Place::Span }, mark: after, clean: cut }
        } else {
            walk
        },
        Place::Span => if c == ']' || c == '{' {
            let cut: bool = walk.clean && on_boundary(piece, walk.mark) && on_boundary(piece, at);
            Walk { place: if c == ']' { Place::Target } else { Place::Field }, mark: after, clean: cut }
        } else {
            walk
        },
        Place::Field => if c == '}' {
            let cut: bool = walk.clean && on_boundary(piece, walk.mark) && on_boundary(piece, at);
            Walk { place: Place::Fields, mark: after, clean: cut }
        } else {
            walk
        },
        Place::Fields => if c == ']' {
            Walk { place: Place::Target, mark: after, clean: walk.clean }
        } else {
            Walk { place: Place::Stopped, mark: after, clean: walk.clean }
        },
        Place::Target => if c == '=' {
            Walk { place: Place::Level, mark: after, clean: walk.clean }
        } else {
            Walk { place: Place::Stopped, mark: after, clean: walk.clean }
        },
        Place::Level => walk,
        Place::Stopped => walk,
    }
}

/// Finds the first character of `piece` that is not white space.
pub fn leading_blanks(piece: &str) -> (lead: usize)
    ensures
        is_lead(piece@, lead as int),
{
    let n: usize = piece.unicode_len();
    let mut lead: usize = 0;
    let mut scanning: bool = true;
    while scanning && lead < n
        invariant
            n == piece@.len(),
            lead <= n,
            forall|j: int| 0 <= j < lead ==> is_blank(#[trigger] piece@[j]),
            !scanning ==> lead < n && !is_blank(piece@[lead as int]),
        decreases 2 * (n - lead) + (if scanning { 1int } else { 0int }),
    {
        if blank(piece.get_char(lead)) {
            lead += 1;
        } else {
            scanning = false;
        }
    }
    lead
}

/// Tells whether the parser's cuts of the directive `piece` are all sound.
pub fn piece_cuts_cleanly(piece: &str) -> (b: bool)
    ensures
        b == piece_is_clean(piece@),
{
    let n: usize = piece.unicode_len();
    let lead: usize = leading_blanks(piece);
    let mut walk: Walk = Walk { place: Place::Start, mark: 0, clean: true };
    let mut at: u128 = 0;
    let mut k: usize = lead;
    assert(piece@.subrange(lead as int, lead as int) =~= Seq::<char>::empty());
    while k < n
        invariant
            n == piece@.len(),
            lead <= k <= n,
            walk == walked(piece@, lead as int, k as int),
            at == byte_len(piece@.subrange(lead as int, k as int)),
            at <= 4 * (k - lead),
        decreases n - k,
    {
        let c: char = piece.get_char(k);
        proof {
            lemma_byte_len_step(piece@, lead as int, k as int);
        }
        walk = advance(piece, walk, c, at);
        at = at + utf8_width(c);
        k += 1;
    }
    let last: bool = match walk.place {
        Place::Name => on_boundary(piece, walk.mark),
        Place::Level => on_boundary(piece, walk.mark),
        _ => true,
    };
    let b: bool = walk.clean && last;
    assert(b == ends_clean(piece@, walk));
    assert forall|j: int| #[trigger] is_lead(piece@, j) implies j == lead by {
        if j < lead {
            assert(is_blank(piece@[j]));
        } else if lead < j {
            assert(is_blank(piece@[lead as int]));
        }
    }
    b
}

/// Finds the end of the piece of `text` that begins at index `from`.
pub fn piece_end(text: &str, from: usize) -> (end: usize)
    requires
        from <= text@.len(),
    ensures
        from <= end <= text@.len(),
        end == text@.len() || text@[end as int] == ',',
        forall|k: int| from <= k < end ==> #[trigger] text@[k] != ',',
{
    let n: usize = text.unicode_len();
    let mut end: usize = from;
    let mut scanning: bool = true;
    while scanning && end < n
        invariant
            n == text@.len(),
            from <= end <= n,
            forall|k: int| from <= k < end ==> #[trigger] text@[k] != ',',
            !scanning ==> end < n && text@[end as int] == ',',
        decreases 2 * (n - end) + (if scanning { 1int } else { 0int }),
    {
        if text.get_char(end) == ',' {
            scanning = false;
        } else {
            end += 1;
        }
    }
    end
}

/// Tells whether the parser's cuts of `text` are all sound, in every directive.
pub fn cuts_cleanly(text: &str) -> (b: bool)
    ensures
        b == all_cuts_clean(text@),
{
    let n: usize = text.unicode_len();
    let mut a: usize = 0;
    let mut more: bool = true;
    while more
        invariant
            n == text@.len(),
            a <= n,
            a == 0 || text@[a - 1] == ',',
            forall|x: int, y: int| #[trigger]
                is_piece(text@, x, y) && (y < a || !more) ==> piece_is_clean(text@.subrange(x, y)),
        decreases 2 * (n - a) + (if more { 1int } else { 0int }),
    {
        let b: usize = piece_end(text, a);
        assert(is_piece(text@, a as int, b as int));
        assert forall|x: int, y: int| #[trigger] is_piece(text@, x, y) && a <= y && y <= b implies x == a
            && y == b by {
            if x < a {
                assert(text@[a - 1] == ',');
            } else if x > a {
                assert(text@[x - 1] == ',');
            }
            if x == a && y < b {
                assert(text@[y] == ',');
            }
        }
        if !piece_cuts_cleanly(text.substring_char(a, b)) {
            return false;
        }
        if b == n {
            more = false;
        } else {
            a = b + 1;
        }
    }
    true
}

} // verus!
