use vstd::prelude::*;

verus! {

/// `String::push` appends the letter to the end of the string.
pub assume_specification[ String::push ](s: &mut String, ch: char)
    ensures
        final(s)@ == old(s)@.push(ch),
;

/// `String::pop` takes the last letter off the string and returns it; an
/// empty string stays empty and gives `None`.
pub assume_specification[ String::pop ](s: &mut String) -> (r: Option<char>)
    ensures
        old(s)@.len() == 0 ==> r is None && final(s)@ == old(s)@,
        old(s)@.len() > 0 ==> r == Some(old(s)@.last()) && final(s)@ == old(s)@.drop_last(),
;

/// `String::clear` removes all letters from the string.
pub assume_specification[ String::clear ](s: &mut String)
    ensures
        final(s)@ == Seq::<char>::empty(),
;

/// The letters of `word`, one by one.
pub fn letters(word: &str) -> (r: Vec<char>)
    ensures
        r@ == word@,
{
    let mut r: Vec<char> = Vec::new();
    for c in it: word.chars()
        invariant
            it.seq() == word@,
            r@ == word@.take(it.index()),
    {
        r.push(c);
        assert(word@.take(it.index() + 1) =~= word@.take(it.index()).push(c));
    }
    assert(word@.take(word@.len() as int) =~= word@);
    r
}

/// The letters that separate the words of a text: space, tab, line feed,
/// form feed and carriage return.
pub open spec fn is_space(c: char) -> bool {
    c == ' ' || c == '\t' || c == '\n' || c == '\x0C' || c == '\r'
}

/// The words that remain to be read in `text` while `open` is the word
/// being read: a separator closes the open word, if there is one, and any
/// other letter joins it; the end of the text closes it too.
pub open spec fn split_from(text: Seq<char>, open: Seq<char>) -> Seq<Seq<char>>
    decreases text.len(),
{
    let closed = if open.len() > 0 {
        seq![open]
    } else {
        Seq::empty()
    };
    if text.len() == 0 {
        closed
    } else if is_space(text[0]) {
        closed + split_from(text.drop_first(), Seq::empty())
    } else {
        split_from(text.drop_first(), open.push(text[0]))
    }
}

/// The words of `text`: its longest runs of letters that are not
/// separators, in their order.
pub open spec fn split(text: Seq<char>) -> Seq<Seq<char>> {
    split_from(text, Seq::empty())
}

/// The spelling of each word of `words`.
pub open spec fn spellings(words: Seq<String>) -> Seq<Seq<char>> {
    Seq::new(words.len(), |i: int| words[i]@)
}

/// A run of letters with no separator among them, and not empty.
pub open spec fn solid(word: Seq<char>) -> bool {
    &&& word.len() > 0
    &&& forall|i: int| 0 <= i < word.len() ==> !is_space(#[trigger] word[i])
}

/// No word of a text is empty, and none holds a separator.
pub proof fn lemma_split_words_are_solid(text: Seq<char>, open: Seq<char>)
    requires
        forall|i: int| 0 <= i < open.len() ==> !is_space(#[trigger] open[i]),
    ensures
        forall|k: int|
            0 <= k < split_from(text, open).len() ==> solid(#[trigger] split_from(text, open)[k]),
    decreases text.len(),
{
    let words = split_from(text, open);
    if text.len() > 0 {
        if is_space(text[0]) {
            let later = split_from(text.drop_first(), Seq::empty());
            lemma_split_words_are_solid(text.drop_first(), Seq::empty());
            assert forall|k: int| 0 <= k < words.len() implies solid(#[trigger] words[k]) by {
                if open.len() > 0 {
                    if k > 0 {
                        assert(words[k] == later[k - 1]);
                    }
                } else {
                    assert(words[k] == later[k]);
                }
            }
        } else {
            let longer = open.push(text[0]);
            assert forall|i: int| 0 <= i < longer.len() implies !is_space(#[trigger] longer[i]) by {
                if i < open.len() {
                    assert(longer[i] == open[i]);
                }
            }
            lemma_split_words_are_solid(text.drop_first(), longer);
            assert(words == split_from(text.drop_first(), longer));
        }
    } else {
        assert forall|k: int| 0 <= k < words.len() implies solid(#[trigger] words[k]) by {
            assert(words[k] == open);
        }
    }
}

/// Tells whether `c` separates words.
pub fn is_separator(c: char) -> (r: bool)
    ensures
        r == is_space(c),
{
    c == ' ' || c == '\t' || c == '\n' || c == '\x0C' || c == '\r'
}

/// Splits `text` into its words.
pub fn split_words(text: &str) -> (r: Vec<String>)
    ensures
        spellings(r@) == split(text@),
{
    let mut r: Vec<String> = Vec::new();
    let mut open = String::new();
    let mut any: bool = false;
    proof {
        assert(text@.skip(0) =~= text@);
        assert(spellings(r@) + split(text@) =~= split(text@));
    }
    for c in it: text.chars()
        invariant
            it.seq() == text@,
            any == (open@.len() > 0),
            split(text@) == spellings(r@) + split_from(text@.skip(it.index()), open@),
    {
        let ghost rest = text@.skip(it.index());
        let ghost done = spellings(r@);
        let ghost word = open@;
        proof {
            assert(rest[0] == c);
            assert(rest.drop_first() =~= text@.skip(it.index() + 1));
        }
        if is_separator(c) {
            if any {
                r.push(open);
                open = String::new();
                any = false;
                proof {
                    let later = split_from(rest.drop_first(), Seq::empty());
                    assert(spellings(r@) =~= done + seq![word]);
                    assert(done + (seq![word] + later) =~= (done + seq![word]) + later);
                }
            } else {
                proof {
                    let later = split_from(rest.drop_first(), Seq::empty());
                    assert(word =~= Seq::<char>::empty());
                    assert(Seq::<Seq<char>>::empty() + later =~= later);
                }
            }
        } else {
            open.push(c);
            any = true;
        }
    }
    let ghost done = spellings(r@);
    proof {
        assert(text@.skip(text@.len() as int) =~= Seq::<char>::empty());
    }
    if any {
        proof {
            assert(spellings(r@.push(open)) =~= done + seq![open@]);
        }
        r.push(open);
    } else {
        proof {
            assert(done + Seq::<Seq<char>>::empty() =~= done);
        }
    }
    r
}

} // verus!
