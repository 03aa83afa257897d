//! Tokens, and the fixed table of built-in words.

use vstd::prelude::*;

verus! {

#[derive(Debug)]
pub enum TokenKind {
    // Built-in operations
    Plus,
    Print,
    // Literals
    Number(u64),
    String(String),
}

/// A token scanned from `source`, at the zero-based (line, column) of its
/// first character.
#[derive(Debug)]
pub struct Token {
    pub kind: TokenKind,
    pub source: String,
    pub position: (usize, usize),
}

pub enum TokenKindView {
    Plus,
    Print,
    Number(u64),
    String(Seq<char>),
}

pub struct TokenView {
    pub kind: TokenKindView,
    pub source: Seq<char>,
    pub position: (nat, nat),
}

impl View for TokenKind {
    type V = TokenKindView;

    open spec fn view(&self) -> TokenKindView {
        match self {
            TokenKind::Plus => TokenKindView::Plus,
            TokenKind::Print => TokenKindView::Print,
            TokenKind::Number(n) => TokenKindView::Number(*n),
            TokenKind::String(s) => TokenKindView::String(s@),
        }
    }
}

impl View for Token {
    type V = TokenView;

    open spec fn view(&self) -> TokenView {
        TokenView {
            kind: self.kind@,
            source: self.source@,
            position: (self.position.0 as nat, self.position.1 as nat),
        }
    }
}

impl Clone for TokenKind {
    fn clone(&self) -> (r: Self)
        ensures
            r@ == self@,
    {
        match self {
            TokenKind::Plus => TokenKind::Plus,
            TokenKind::Print => TokenKind::Print,
            TokenKind::Number(n) => TokenKind::Number(*n),
            TokenKind::String(s) => TokenKind::String(s.clone()),
        }
    }
}

impl Clone for Token {
    fn clone(&self) -> (r: Self)
        ensures
            r@ == self@,
    {
        Token { kind: self.kind.clone(), source: self.source.clone(), position: self.position }
    }
}

/// The built-in words, in lookup order.
pub open spec fn builtin_words() -> Seq<(Seq<char>, TokenKindView)> {
    seq![(seq!['+'], TokenKindView::Plus), (seq!['p', 'r', 'i', 'n', 't'], TokenKindView::Print)]
}

/// The kind that the first entry for `word` gives, if any.
pub open spec fn lookup_word(entries: Seq<(Seq<char>, TokenKindView)>, word: Seq<char>) -> Option<
    TokenKindView,
>
    decreases entries.len(),
{
    if entries.len() == 0 {
        None
    } else if entries[0].0 == word {
        Some(entries[0].1)
    } else {
        lookup_word(entries.drop_first(), word)
    }
}

/// The fixed mapping from keyword text to the operator tokens. It is built
/// once per run and only read afterwards.
#[derive(Debug)]
pub struct WordTable {
    entries: Vec<(Vec<char>, TokenKind)>,
}

impl View for WordTable {
    type V = Seq<(Seq<char>, TokenKindView)>;

    closed spec fn view(&self) -> Seq<(Seq<char>, TokenKindView)> {
        self.entries@.map_values(|e: (Vec<char>, TokenKind)| (e.0@, e.1@))
    }
}

fn same_chars(a: &Vec<char>, b: &Vec<char>) -> (r: bool)
    ensures
        r == (a@ == b@),
{
    if a.len() != b.len() {
        return false;
    }
    let mut i: usize = 0;
    while i < a.len()
        invariant
            a@.len() == b@.len(),
            i <= a@.len(),
            forall|k: int| 0 <= k < i ==> a@[k] == b@[k],
        decreases a@.len() - i,
    {
        if a[i] != b[i] {
            return false;
        }
        i = i + 1;
    }
    assert(a@ =~= b@);
    true
}

impl WordTable {
    /// The table of the language's built-in words: `+` and `print`.
    pub fn builtin() -> (r: WordTable)
        ensures
            r@ == builtin_words(),
    {
        let mut plus: Vec<char> = Vec::new();
        plus.push('+');
        let mut print: Vec<char> = Vec::new();
        print.push('p');
        print.push('r');
        print.push('i');
        print.push('n');
        print.push('t');
        let mut entries: Vec<(Vec<char>, TokenKind)> = Vec::new();
        entries.push((plus, TokenKind::Plus));
        entries.push((print, TokenKind::Print));
        let r = WordTable { entries };
        assert(r@[0].0 =~= seq!['+']);
        assert(r@[1].0 =~= seq!['p', 'r', 'i', 'n', 't']);
        assert(r@ =~= builtin_words());
        r
    }

    /// The kind of token that `word` stands for, if it is a built-in word.
    pub fn lookup(&self, word: &Vec<char>) -> (r: Option<TokenKind>)
        ensures
            r matches Some(k) ==> lookup_word(self@, word@) == Some(k@),
            r is None ==> lookup_word(self@, word@) is None,
    {
        let mut i: usize = 0;
        assert(self@.subrange(0, self@.len() as int) =~= self@);
        while i < self.entries.len()
            invariant
                i <= self@.len(),
                self@.len() == self.entries@.len(),
                lookup_word(self@, word@) == lookup_word(self@.subrange(i as int, self@.len() as int), word@),
            decreases self.entries@.len() - i,
        {
            let entry = &self.entries[i];
            proof {
                let rest = self@.subrange(i as int, self@.len() as int);
                assert(rest[0] == (entry.0@, entry.1@));
                assert(rest.drop_first() =~= self@.subrange(i + 1, self@.len() as int));
            }
            if same_chars(&entry.0, word) {
                return Some(entry.1.clone());
            }
            i = i + 1;
        }
        None
    }
}

} // verus!
