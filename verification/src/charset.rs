//! Charset subsetting: which characters a page needs from which web font.
//!
//! The characters of a page are collected in a [`Charset`], a set without
//! order. Each character belongs to at most one [`Script`], decided by the
//! Unicode block that holds it; the characters of each script are handed to
//! the page as one string, in no particular order and without repeats.

use vstd::prelude::*;
use std::collections::HashSet;
use vstd::std_specs::iter::IteratorSpec;

verus! {

broadcast use vstd::std_specs::hash::group_hash_axioms;

/// The font that covers a block of characters.
#[derive(Clone, Copy, Debug, PartialEq, Eq, Structural)]
pub enum Script {
    /// The Korean-weight font.
    Korean,
    /// The Japanese-weight font.
    Japanese,
}

/// A range of code points, both ends included, and the font that covers it.
#[derive(Clone, Copy, Debug, PartialEq, Eq, Structural)]
pub struct Block {
    pub first: u32,
    pub last: u32,
    pub script: Script,
}

/// Number of rows in the block table.
pub const BLOCK_COUNT: usize = 4;

/// The block table: Hangul syllables for the Korean font; kana, CJK
/// ideographs and punctuation, halfwidth and fullwidth forms, and the
/// mathematical operators for the Japanese font.
pub open spec fn block_table() -> Seq<Block> {
    seq![
        Block { first: 0xac00, last: 0xd7af, script: Script::Korean },
        Block { first: 0x3000, last: 0x9fff, script: Script::Japanese },
        Block { first: 0xff00, last: 0xffef, script: Script::Japanese },
        Block { first: 0x2200, last: 0x22ff, script: Script::Japanese },
    ]
}

/// Row `i` of the block table.
pub fn block_at(i: usize) -> (b: Block)
    requires
        i < BLOCK_COUNT,
    ensures
        b == block_table()[i as int],
{
    if i == 0 {
        Block { first: 0xac00, last: 0xd7af, script: Script::Korean }
    } else if i == 1 {
        Block { first: 0x3000, last: 0x9fff, script: Script::Japanese }
    } else if i == 2 {
        Block { first: 0xff00, last: 0xffef, script: Script::Japanese }
    } else {
        Block { first: 0x2200, last: 0x22ff, script: Script::Japanese }
    }
}

/// The code point `code` lies in `block`.
pub open spec fn in_block(code: u32, block: Block) -> bool {
    block.first <= code <= block.last
}

/// The script of the first row at or after `from` that holds `code`.
pub open spec fn first_match(code: u32, from: int) -> Option<Script>
    decreases BLOCK_COUNT - from,
{
    if from < 0 || from >= BLOCK_COUNT {
        None
    } else if in_block(code, block_table()[from]) {
        Some(block_table()[from].script)
    } else {
        first_match(code, from + 1)
    }
}

/// The font that covers `c`: that of the first row of the block table that
/// holds it, if any.
pub open spec fn script_for(c: char) -> Option<Script> {
    first_match(c as u32, 0)
}

/// The rows of the block table do not overlap, so a character's script does
/// not depend on the order of the rows: it is Korean exactly in the Hangul
/// syllables, Japanese exactly in the three other blocks.
pub proof fn lemma_script_ranges(c: char)
    ensures
        script_for(c) == Some(Script::Korean) <==> 0xac00 <= c as u32 <= 0xd7af,
        script_for(c) == Some(Script::Japanese) <==> (0x3000 <= c as u32 <= 0x9fff || 0xff00
            <= c as u32 <= 0xffef || 0x2200 <= c as u32 <= 0x22ff),
        forall|i: int, j: int|
            0 <= i < j < BLOCK_COUNT ==> !(in_block(c as u32, #[trigger] block_table()[i])
                && in_block(c as u32, #[trigger] block_table()[j])),
{
    reveal_with_fuel(first_match, 5);
}

/// Finds the font that covers `c`.
pub fn script_of(c: char) -> (r: Option<Script>)
    ensures
        r == script_for(c),
{
    let code: u32 = c as u32;
    let mut i: usize = 0;
    while i < BLOCK_COUNT
        invariant
            i <= BLOCK_COUNT,
            code == c as u32,
            script_for(c) == first_match(code, i as int),
        decreases BLOCK_COUNT - i,
    {
        let block = block_at(i);
        if block.first <= code && code <= block.last {
            return Some(block.script);
        }
        i = i + 1;
    }
    None
}

/// Different characters have different code points.
pub proof fn lemma_code_injective(a: char, b: char)
    ensures
        (a as u32 == b as u32) == (a == b),
        vstd::utf8::is_scalar(a as u32),
        (a as u32) as char == a,
{
}

/// The characters of `set` that the font for `script` covers.
pub open spec fn subset_for(set: Set<char>, script: Script) -> Set<char> {
    set.filter(|c: char| script_for(c) == Some(script))
}

/// The distinct characters seen so far.
#[derive(Debug)]
pub struct Charset {
    codes: HashSet<u32>,
}

impl View for Charset {
    type V = Set<char>;

    closed spec fn view(&self) -> Set<char> {
        Set::new(|c: char| self.codes@.contains(c as u32))
    }
}

/// The strings handed to a page: for each font the characters that it has
/// to supply.
#[derive(Clone, Debug, PartialEq, Eq)]
pub struct FontSubsets {
    /// The characters for the Korean-weight font.
    pub korean: String,
    /// The characters for the Japanese-weight font.
    pub japanese: String,
}

/// `subsets` lists, for each font, each character of `set` that the font
/// covers exactly once, and nothing else.
pub open spec fn subsets_of(set: Set<char>, subsets: FontSubsets) -> bool {
    &&& subsets.korean@.no_duplicates()
    &&& subsets.korean@.to_set() == subset_for(set, Script::Korean)
    &&& subsets.japanese@.no_duplicates()
    &&& subsets.japanese@.to_set() == subset_for(set, Script::Japanese)
}

impl Charset {
    /// The empty set.
    pub fn new() -> (r: Charset)
        ensures
            r@ == Set::<char>::empty(),
    {
        let r = Charset { codes: HashSet::new() };
        proof {
            assert(r@ =~= Set::<char>::empty());
        }
        r
    }

    /// Adds one character.
    pub fn insert(&mut self, c: char)
        ensures
            final(self)@ == old(self)@.insert(c),
    {
        self.codes.insert(c as u32);
        proof {
            assert forall|x: char| self@.contains(x) == old(self)@.insert(c).contains(x) by {
                lemma_code_injective(x, c);
            }
            assert(self@ =~= old(self)@.insert(c));
        }
    }

    /// Tests whether `c` has been seen.
    pub fn contains(&self, c: char) -> (r: bool)
        ensures
            r == self@.contains(c),
    {
        let code: u32 = c as u32;
        self.codes.contains(&code)
    }

    /// Adds every character of `s`.
    pub fn extend_from_str(&mut self, s: &str)
        ensures
            final(self)@ == old(self)@.union(s@.to_set()),
    {
        proof {
            assert(self@ =~= old(self)@.union(s@.take(0).to_set()));
        }
        for c in it: s.chars()
            invariant
                it.seq() == s@,
                self@ == old(self)@.union(s@.take(it.index()).to_set()),
        {
            self.insert(c);
            proof {
                let k = it.index();
                assert(s@.take(k + 1) =~= s@.take(k).push(c));
                lemma_push_contains(s@.take(k), c);
                assert(s@.take(k).push(c).to_set() =~= s@.take(k).to_set().insert(c));
                assert(self@ =~= old(self)@.union(s@.take(k + 1).to_set()));
            }
        }
        proof {
            assert(s@.take(s@.len() as int) =~= s@);
        }
    }

    /// Splits the set by font.
    ///
    /// Each character of the set that a font covers occurs exactly once in
    /// that font's string; characters that no font covers are dropped. The
    /// order within a string is that in which the set is walked, which is
    /// not fixed.
    pub fn subsets(&self) -> (r: FontSubsets)
        ensures
            subsets_of(self@, r),
    {
        let mut korean = String::new();
        let mut japanese = String::new();
        let ghost all: Seq<&u32> = vstd::std_specs::hash::spec_hash_keys_iter(
            &self.codes,
        ).remaining();
        for code in it: self.codes.iter()
            invariant
                it.seq() == all,
                all.unref().to_set() == self.codes@,
                all.no_duplicates(),
                korean@.no_duplicates(),
                japanese@.no_duplicates(),
                forall|c: char|
                    korean@.contains(c) <==> (script_for(c) == Some(Script::Korean) && walked(
                        it.seq(),
                        it.index(),
                        c,
                    )),
                forall|c: char|
                    japanese@.contains(c) <==> (script_for(c) == Some(Script::Japanese) && walked(
                        it.seq(),
                        it.index(),
                        c,
                    )),
        {
            let ghost k = it.index();
            let ghost codes = it.seq();
            let ghost korean_before = korean@;
            let ghost japanese_before = japanese@;
            let found = char::from_u32(*code);
            match found {
                Some(c) => match script_of(c) {
                    Some(Script::Korean) => {
                        korean.push(c);
                    },
                    Some(Script::Japanese) => {
                        japanese.push(c);
                    },
                    None => {},
                },
                None => {},
            }
            proof {
                assert(codes[k] == code);
                if let Some(ch) = found {
                    lemma_code_injective(ch, ch);
                    lemma_push_contains(korean_before, ch);
                    lemma_push_contains(japanese_before, ch);
                    if walked(codes, k, ch) {
                        let j = choose|j: int| 0 <= j < k && *codes[j] == ch as u32;
                        assert(codes[j] == codes[k]);
                    }
                }
                assert forall|c: char|
                    korean@.contains(c) <==> (script_for(c) == Some(Script::Korean) && walked(
                        codes,
                        k + 1,
                        c,
                    )) by {
                    lemma_walked_step(codes, k, c);
                    lemma_code_injective(c, c);
                    if let Some(ch) = found {
                        lemma_code_injective(c, ch);
                    }
                    assert(korean_before.contains(c) <==> (script_for(c) == Some(Script::Korean)
                        && walked(codes, k, c)));
                }
                assert forall|c: char|
                    japanese@.contains(c) <==> (script_for(c) == Some(Script::Japanese) && walked(
                        codes,
                        k + 1,
                        c,
                    )) by {
                    lemma_walked_step(codes, k, c);
                    lemma_code_injective(c, c);
                    if let Some(ch) = found {
                        lemma_code_injective(c, ch);
                    }
                    assert(japanese_before.contains(c) <==> (script_for(c) == Some(
                        Script::Japanese,
                    ) && walked(codes, k, c)));
                }
            }
        }
        proof {
            let codes = all;
            assert forall|c: char| walked(codes, codes.len() as int, c) == self@.contains(c) by {
                if walked(codes, codes.len() as int, c) {
                    let j = choose|j: int| 0 <= j < codes.len() && *codes[j] == c as u32;
                    assert(codes.unref()[j] == c as u32);
                    assert(codes.unref().to_set().contains(c as u32));
                }
                if self@.contains(c) {
                    assert(codes.unref().to_set().contains(c as u32));
                    let j = choose|j: int|
                        0 <= j < codes.unref().len() && codes.unref()[j] == c as u32;
                    assert(*codes[j] == c as u32);
                }
            }
            assert forall|c: char|
                korean@.to_set().contains(c) == subset_for(self@, Script::Korean).contains(c) by {
                assert(korean@.contains(c) <==> (script_for(c) == Some(Script::Korean) && walked(
                    codes,
                    codes.len() as int,
                    c,
                )));
            }
            assert forall|c: char|
                japanese@.to_set().contains(c) == subset_for(self@, Script::Japanese).contains(
                    c,
                ) by {
                assert(japanese@.contains(c) <==> (script_for(c) == Some(Script::Japanese)
                    && walked(codes, codes.len() as int, c)));
            }
            assert(korean@.to_set() =~= subset_for(self@, Script::Korean));
            assert(japanese@.to_set() =~= subset_for(self@, Script::Japanese));
        }
        FontSubsets { korean, japanese }
    }
}

/// The two fonts share no character: a character of the set is handed to at
/// most one font, and to that one once.
pub proof fn lemma_subsets_disjoint(set: Set<char>, subsets: FontSubsets)
    requires
        subsets_of(set, subsets),
    ensures
        subsets.korean@.to_set().disjoint(subsets.japanese@.to_set()),
        forall|c: char| !(subsets.korean@.contains(c) && subsets.japanese@.contains(c)),
        subsets.korean@.no_duplicates(),
        subsets.japanese@.no_duplicates(),
        forall|c: char|
            subsets.korean@.contains(c) || subsets.japanese@.contains(c) ==> set.contains(c),
{
    assert forall|c: char| !(subsets.korean@.contains(c) && subsets.japanese@.contains(c)) by {
        if subsets.korean@.contains(c) && subsets.japanese@.contains(c) {
            assert(subsets.korean@.to_set().contains(c));
            assert(subsets.japanese@.to_set().contains(c));
            assert(subset_for(set, Script::Korean).contains(c));
            assert(subset_for(set, Script::Japanese).contains(c));
        }
    }
    assert forall|c: char|
        subsets.korean@.contains(c) || subsets.japanese@.contains(c) implies set.contains(c) by {
        if subsets.korean@.contains(c) {
            assert(subsets.korean@.to_set().contains(c));
            assert(subset_for(set, Script::Korean).contains(c));
        } else {
            assert(subsets.japanese@.to_set().contains(c));
            assert(subset_for(set, Script::Japanese).contains(c));
        }
    }
    assert forall|c: char|
        !(subsets.korean@.to_set().contains(c) && subsets.japanese@.to_set().contains(c)) by {
        assert(subsets.korean@.to_set().contains(c) == subsets.korean@.contains(c));
        assert(subsets.japanese@.to_set().contains(c) == subsets.japanese@.contains(c));
    }
}

/// The character `c` is among the first `k` code points of `codes`.
spec fn walked(codes: Seq<&u32>, k: int, c: char) -> bool {
    exists|j: int| 0 <= j < k && *codes[j] == c as u32
}

/// Walking one code point further adds the character with that code point,
/// if there is one.
proof fn lemma_walked_step(codes: Seq<&u32>, k: int, c: char)
    requires
        0 <= k < codes.len(),
    ensures
        walked(codes, k + 1, c) == (walked(codes, k, c) || c as u32 == *codes[k]),
{
    if walked(codes, k + 1, c) {
        let j = choose|j: int| 0 <= j < k + 1 && *codes[j] == c as u32;
        if j < k {
            assert(walked(codes, k, c));
        }
    }
    if walked(codes, k, c) {
        let j = choose|j: int| 0 <= j < k && *codes[j] == c as u32;
        assert(0 <= j < k + 1 && *codes[j] == c as u32);
    }
    if c as u32 == *codes[k] {
        assert(0 <= k < k + 1 && *codes[k] == c as u32);
    }
}

/// What a sequence holds once an element is pushed, and that pushing a new
/// element keeps a sequence free of repeats.
pub proof fn lemma_push_contains<A>(s: Seq<A>, v: A)
    ensures
        forall|x: A| #[trigger] s.push(v).contains(x) <==> (s.contains(x) || x == v),
        s.no_duplicates() && !s.contains(v) ==> s.push(v).no_duplicates(),
{
    assert forall|x: A| #[trigger] s.push(v).contains(x) <==> (s.contains(x) || x == v) by {
        if s.push(v).contains(x) {
            let j = choose|j: int| 0 <= j < s.push(v).len() && s.push(v)[j] == x;
            if j < s.len() {
                assert(s[j] == x);
            }
        }
        if s.contains(x) {
            let j = choose|j: int| 0 <= j < s.len() && s[j] == x;
            assert(s.push(v)[j] == x);
        }
        assert(s.push(v)[s.len() as int] == v);
    }
    if s.no_duplicates() && !s.contains(v) {
        assert forall|i: int, j: int|
            0 <= i < s.push(v).len() && 0 <= j < s.push(v).len() && i != j implies s.push(v)[i]
            != s.push(v)[j] by {
            if i < s.len() {
                assert(s.contains(s[i]));
            }
            if j < s.len() {
                assert(s.contains(s[j]));
            }
        }
    }
}

} // verus!
