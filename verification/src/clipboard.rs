//! What a paste or a drop writes into the terminal.

use vstd::prelude::*;
use vstd::string::*;

use crate::text::{decimal, decimal_of};

verus! {

/// What one item of the pasteboard holds.
#[derive(Clone, Debug, PartialEq)]
pub struct PasteItem {
    /// The path of the file that it refers to.
    pub file_path: Option<String>,
    /// Its text.
    pub text: Option<String>,
}

/// Characters that a shell would not take literally.
pub open spec fn is_special(c: char) -> bool {
    c == '\\' || c == ' ' || c == '(' || c == ')' || c == '[' || c == ']' || c == '{' || c == '}' || c
        == '<' || c == '>' || c == '"' || c == '\'' || c == '`' || c == '!' || c == '#' || c == '$'
        || c == '&' || c == ';' || c == '|' || c == '*' || c == '?' || c == '\t'
}

/// `s` with a backslash before each special character.
pub open spec fn escaped(s: Seq<char>) -> Seq<char>
    decreases s.len(),
{
    if s.len() == 0 {
        Seq::empty()
    } else if is_special(s.last()) {
        escaped(s.drop_last()) + seq!['\\', s.last()]
    } else {
        escaped(s.drop_last()).push(s.last())
    }
}

/// What a shell reads: a backslash takes the next character literally.
pub open spec fn unescaped(s: Seq<char>) -> Seq<char>
    decreases s.len(),
{
    if s.len() == 0 {
        Seq::empty()
    } else if s[0] == '\\' && s.len() > 1 {
        seq![s[1]] + unescaped(s.skip(2))
    } else {
        seq![s[0]] + unescaped(s.skip(1))
    }
}

fn special(c: char) -> (r: bool)
    ensures
        r == is_special(c),
{
    c == '\\' || c == ' ' || c == '(' || c == ')' || c == '[' || c == ']' || c == '{' || c == '}' || c
        == '<' || c == '>' || c == '"' || c == '\'' || c == '`' || c == '!' || c == '#' || c == '$'
        || c == '&' || c == ';' || c == '|' || c == '*' || c == '?' || c == '\t'
}

/// `s` with a backslash before each character that a shell would not take literally.
pub fn shell_escape(s: &str) -> (out: String)
    ensures
        out@ == escaped(s@),
{
    let mut out: String = String::new();
    assert(s@.take(0) =~= Seq::<char>::empty());
    for c in it: s.chars()
        invariant
            it.seq() == s@,
            out@ == escaped(s@.take(it.index() as int)),
    {
        let ghost i = it.index() as int;
        assert(s@.take(i + 1).drop_last() =~= s@.take(i));
        let ghost before = out@;
        if special(c) {
            out.push('\\');
        }
        out.push(c);
        assert(is_special(c) ==> out@ =~= before + seq!['\\', c]);
    }
    assert(s@.take(s@.len() as int) =~= s@);
    out
}

/// A shell reads an escaped text as the text itself.
pub proof fn lemma_escape_round_trip(s: Seq<char>)
    ensures
        unescaped(escaped(s)) == s,
{
    lemma_escaped_append(s, Seq::empty());
    assert(escaped(s) + Seq::<char>::empty() =~= escaped(s));
    assert(s + unescaped(Seq::empty()) =~= s);
}

proof fn lemma_escaped_append(s: Seq<char>, tail: Seq<char>)
    ensures
        unescaped(escaped(s) + tail) == s + unescaped(tail),
    decreases s.len(),
{
    if s.len() == 0 {
        assert(escaped(s) + tail =~= tail);
        assert(s + unescaped(tail) =~= unescaped(tail));
    } else {
        let c = s.last();
        let piece = if is_special(c) {
            seq!['\\', c]
        } else {
            seq![c]
        };
        assert(escaped(s) =~= escaped(s.drop_last()) + piece);
        assert(escaped(s) + tail =~= escaped(s.drop_last()) + (piece + tail));
        lemma_escaped_append(s.drop_last(), piece + tail);
        if is_special(c) {
            assert((piece + tail).skip(2) =~= tail);
        } else {
            assert((piece + tail).skip(1) =~= tail);
        }
        assert(unescaped(piece + tail) =~= seq![c] + unescaped(tail));
        assert(s.drop_last() + (seq![c] + unescaped(tail)) =~= s + unescaped(tail));
    }
}

/// What one item pastes as: the escaped path of a file, or else its text.
pub open spec fn item_text(item: PasteItem) -> Option<Seq<char>> {
    match (item.file_path, item.text) {
        (Some(p), _) => Some(escaped(p@)),
        (None, Some(t)) => Some(t@),
        (None, None) => None,
    }
}

/// What the items paste as, joined by single spaces; `None` where none of them pastes as anything.
pub open spec fn items_text(items: Seq<PasteItem>) -> Option<Seq<char>>
    decreases items.len(),
{
    if items.len() == 0 {
        None
    } else {
        match (items_text(items.drop_last()), item_text(items.last())) {
            (Some(a), Some(b)) => Some(a + " "@ + b),
            (Some(a), None) => Some(a),
            (None, b) => b,
        }
    }
}

/// What the items of the pasteboard paste as.
pub fn opinionated_text(items: &Vec<PasteItem>) -> (out: Option<String>)
    ensures
        match out {
            Some(s) => items_text(items@) == Some(s@),
            None => items_text(items@) is None,
        },
{
    let mut out: Option<String> = None;
    let mut i: usize = 0;
    assert(items@.take(0) =~= Seq::<PasteItem>::empty());
    while i < items.len()
        invariant
            i <= items@.len(),
            match out {
                Some(s) => items_text(items@.take(i as int)) == Some(s@),
                None => items_text(items@.take(i as int)) is None,
            },
        decreases items@.len() - i,
    {
        assert(items@.take(i + 1).drop_last() =~= items@.take(i as int));
        let part: Option<String> = match &items[i].file_path {
            Some(p) => Some(shell_escape(p.as_str())),
            None => match &items[i].text {
                Some(t) => Some(t.clone()),
                None => None,
            },
        };
        if let Some(p) = part {
            out = match out {
                Some(s) => Some(s.concat(" ").concat(p.as_str())),
                None => Some(p),
            };
        }
        i += 1;
    }
    assert(items@.take(i as int) =~= items@);
    out
}

/// What a paste writes: the pasteboard's own text, or else the escaped path of the file that its
/// picture was saved to.
pub fn paste_text(text: Option<String>, image_path: Option<String>) -> (out: Option<String>)
    ensures
        match (text, image_path) {
            (Some(t), _) => out matches Some(s) && s@ == t@,
            (None, Some(p)) => out matches Some(s) && s@ == escaped(p@),
            (None, None) => out is None,
        },
{
    match text {
        Some(t) => Some(t),
        None => match image_path {
            Some(p) => Some(shell_escape(p.as_str())),
            None => None,
        },
    }
}

/// The name of the file that the `n`-th pasted picture is saved to.
pub fn clip_file_name(pid: u32, n: u64) -> (name: String)
    ensures
        name@ == "ninja-clip-"@ + decimal(pid as nat) + "-"@ + decimal(n as nat) + ".png"@,
{
    "ninja-clip-".to_owned().concat(decimal_of(pid as u64).as_str()).concat("-").concat(
        decimal_of(n).as_str(),
    ).concat(".png")
}

/// The numbers of the characters that get a backslash: the tabulator, the space, and
/// `! " # $ & ' ( ) * ; < > ? [ \ ] \` { | }`.
pub open spec fn special_numbers() -> Set<u32> {
    set![
        9u32,
        32,
        33,
        34,
        35,
        36,
        38,
        39,
        40,
        41,
        42,
        59,
        60,
        62,
        63,
        91,
        92,
        93,
        96,
        123,
        124,
        125,
    ]
}

/// Every character is taken for itself, wherever it stands: one of the special ones comes with a
/// backslash before it, any other as it is.
pub proof fn lemma_backslash_before_special(a: Seq<char>, c: char, b: Seq<char>)
    ensures
        escaped(Seq::empty()) == Seq::<char>::empty(),
        special_numbers().contains(c as u32) ==> escaped(a + seq![c] + b) == escaped(a) + seq!['\\', c]
            + escaped(b),
        !special_numbers().contains(c as u32) ==> escaped(a + seq![c] + b) == escaped(a) + seq![c]
            + escaped(b),
{
    assert(is_special(c) <==> special_numbers().contains(c as u32));
    lemma_escaped_parts(a + seq![c], b);
    assert((a + seq![c]).drop_last() =~= a);
    assert(escaped(a).push(c) =~= escaped(a) + seq![c]);
}

proof fn lemma_escaped_parts(a: Seq<char>, b: Seq<char>)
    ensures
        escaped(a + b) == escaped(a) + escaped(b),
    decreases b.len(),
{
    if b.len() > 0 {
        lemma_escaped_parts(a, b.drop_last());
        assert((a + b).drop_last() =~= a + b.drop_last());
        assert(escaped(a + b) =~= escaped(a) + escaped(b));
    } else {
        assert(a + b =~= a);
        assert(escaped(a) + escaped(b) =~= escaped(a));
    }
}

/// Items that stand behind each other paste what each of them pastes, with one space between; one
/// without a file or a text leaves no trace.
pub proof fn lemma_items_paste_in_order(a: Seq<PasteItem>, b: Seq<PasteItem>, item: PasteItem)
    ensures
        items_text(Seq::empty()) is None,
        items_text(a + b) == match (items_text(a), items_text(b)) {
            (Some(x), Some(y)) => Some(x + seq![' '] + y),
            (Some(x), None) => Some(x),
            (None, y) => y,
        },
        item.file_path matches Some(p) ==> items_text(seq![item]) == Some(escaped(p@)),
        item.file_path is None ==> match item.text {
            Some(t) => items_text(seq![item]) == Some(t@),
            None => items_text(seq![item]) is None,
        },
    decreases b.len(),
{
    reveal_strlit(" ");
    assert(" "@ =~= seq![' ']);
    assert(seq![item].drop_last() =~= Seq::<PasteItem>::empty());
    if b.len() > 0 {
        lemma_items_paste_in_order(a, b.drop_last(), item);
        assert((a + b).drop_last() =~= a + b.drop_last());
        match (items_text(a), items_text(b.drop_last()), item_text(b.last())) {
            (Some(x), Some(y), Some(z)) => {
                assert(x + seq![' '] + y + seq![' '] + z =~= x + seq![' '] + (y + seq![' '] + z));
            },
            _ => {},
        }
    } else {
        assert(a + b =~= a);
    }
}

/// A text on the pasteboard is pasted as it is, whatever else there is; a picture is pasted as the path
/// that it was saved to, escaped for the shell.
pub proof fn lemma_text_before_picture(text: Option<String>, image_path: Option<String>, r: Option<String>)
    requires
        call_ensures(paste_text, (text, image_path), r),
    ensures
        r is None <==> text is None && image_path is None,
        text matches Some(t) ==> r->0@ == t@,
        text is None && image_path is Some ==> r->0@ == escaped(image_path->0@) && unescaped(r->0@)
            == image_path->0@,
{
    if text is None && image_path is Some {
        lemma_escape_round_trip(image_path->0@);
    }
}

} // verus!
