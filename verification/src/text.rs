//! Reading and writing the characters of a string.

use vstd::prelude::*;

verus! {

/// The characters that position strings and coordinates are written with:
/// the file letters, the digits `0`..`8`, the piece letters, the marks `/`,
/// `-` and `w`, the blank and the line feed.
pub open spec fn is_writable(c: char) -> bool {
    'A' <= c <= 'H' || '0' <= c <= '8' || c == 'K' || c == 'Q' || c == 'R' || c == 'N' || c == 'P'
        || c == 'k' || c == 'q' || c == 'r' || c == 'b' || c == 'n' || c == 'p' || c == '/' || c
        == ' ' || c == '-' || c == 'w' || c == '\n'
}

/// The string that holds the one character `c`.
fn char_str(c: char) -> (s: &'static str)
    requires
        is_writable(c),
    ensures
        s@ == seq![c],
{
    let s = match c {
        'A' => {
            proof {
                reveal_strlit("A");
            }
            "A"
        },
        'B' => {
            proof {
                reveal_strlit("B");
            }
            "B"
        },
        'C' => {
            proof {
                reveal_strlit("C");
            }
            "C"
        },
        'D' => {
            proof {
                reveal_strlit("D");
            }
            "D"
        },
        'E' => {
            proof {
                reveal_strlit("E");
            }
            "E"
        },
        'F' => {
            proof {
                reveal_strlit("F");
            }
            "F"
        },
        'G' => {
            proof {
                reveal_strlit("G");
            }
            "G"
        },
        'H' => {
            proof {
                reveal_strlit("H");
            }
            "H"
        },
        '0' => {
            proof {
                reveal_strlit("0");
            }
            "0"
        },
        '1' => {
            proof {
                reveal_strlit("1");
            }
            "1"
        },
        '2' => {
            proof {
                reveal_strlit("2");
            }
            "2"
        },
        '3' => {
            proof {
                reveal_strlit("3");
            }
            "3"
        },
        '4' => {
            proof {
                reveal_strlit("4");
            }
            "4"
        },
        '5' => {
            proof {
                reveal_strlit("5");
            }
            "5"
        },
        '6' => {
            proof {
                reveal_strlit("6");
            }
            "6"
        },
        '7' => {
            proof {
                reveal_strlit("7");
            }
            "7"
        },
        '8' => {
            proof {
                reveal_strlit("8");
            }
            "8"
        },
        'K' => {
            proof {
                reveal_strlit("K");
            }
            "K"
        },
        'Q' => {
            proof {
                reveal_strlit("Q");
            }
            "Q"
        },
        'R' => {
            proof {
                reveal_strlit("R");
            }
            "R"
        },
        'N' => {
            proof {
                reveal_strlit("N");
            }
            "N"
        },
        'P' => {
            proof {
                reveal_strlit("P");
            }
            "P"
        },
        'k' => {
            proof {
                reveal_strlit("k");
            }
            "k"
        },
        'q' => {
            proof {
                reveal_strlit("q");
            }
            "q"
        },
        'r' => {
            proof {
                reveal_strlit("r");
            }
            "r"
        },
        'b' => {
            proof {
                reveal_strlit("b");
            }
            "b"
        },
        'n' => {
            proof {
                reveal_strlit("n");
            }
            "n"
        },
        'p' => {
            proof {
                reveal_strlit("p");
            }
            "p"
        },
        '/' => {
            proof {
                reveal_strlit("/");
            }
            "/"
        },
        ' ' => {
            proof {
                reveal_strlit(" ");
            }
            " "
        },
        '-' => {
            proof {
                reveal_strlit("-");
            }
            "-"
        },
        '\n' => {
            proof {
                reveal_strlit("\n");
            }
            "\n"
        },
        'w' => {
            proof {
                reveal_strlit("w");
            }
            "w"
        },
        _ => unreached(),
    };
    assert(s@ =~= seq![c]);
    s
}

/// Appends the character `c` to `out`.
pub(crate) fn push_char(out: &mut String, c: char)
    requires
        is_writable(c),
    ensures
        final(out)@ == old(out)@.push(c),
{
    out.append(char_str(c));
    assert(out@ =~= old(out)@.push(c));
}

/// The characters of `text`, one by one.
pub fn chars_of(text: &str) -> (chars: Vec<char>)
    ensures
        chars@ == text@,
{
    let n = text.unicode_len();
    let mut chars: Vec<char> = Vec::new();
    let mut i: usize = 0;
    while i < n
        invariant
            i <= n,
            n == text@.len(),
            chars@ == text@.take(i as int),
        decreases n - i,
    {
        chars.push(text.get_char(i));
        assert(text@.take(i + 1) =~= text@.take(i as int).push(text@[i as int]));
        i = i + 1;
    }
    assert(text@.take(n as int) =~= text@);
    chars
}

/// The number of characters of `text` before its first `sep`, or the
/// length of `text` if it holds none.
pub open spec fn first_sep(text: Seq<char>, sep: char) -> int
    decreases text.len(),
{
    if text.len() == 0 || text[0] == sep {
        0
    } else {
        1 + first_sep(text.drop_first(), sep)
    }
}

/// The fields of `text` between the occurrences of `sep`. A text without
/// `sep` is one field; two adjacent separators hold an empty field.
pub open spec fn split(text: Seq<char>, sep: char) -> Seq<Seq<char>>
    decreases text.len(),
{
    let k = first_sep(text, sep);
    if 0 <= k < text.len() {
        seq![text.take(k)] + split(text.skip(k + 1), sep)
    } else {
        seq![text]
    }
}

/// The fields `parts` written one after the other with `sep` between them.
pub open spec fn join(parts: Seq<Seq<char>>, sep: char) -> Seq<char>
    decreases parts.len(),
{
    if parts.len() == 0 {
        Seq::<char>::empty()
    } else if parts.len() == 1 {
        parts[0]
    } else {
        parts[0] + seq![sep] + join(parts.drop_first(), sep)
    }
}

/// The contents of a list of character vectors.
pub open spec fn views(parts: Seq<Vec<char>>) -> Seq<Seq<char>> {
    Seq::new(parts.len(), |i: int| parts[i]@)
}

/// The first separator of a text that begins with a field free of it
/// stands right behind that field.
pub proof fn lemma_first_sep(head: Seq<char>, sep: char, tail: Seq<char>)
    requires
        !head.contains(sep),
    ensures
        first_sep(head, sep) == head.len(),
        first_sep(head + seq![sep] + tail, sep) == head.len(),
    decreases head.len(),
{
    let whole = head + seq![sep] + tail;
    if head.len() == 0 {
        assert(whole[0] == sep);
    } else {
        assert(head[0] != sep) by {
            assert(head.contains(head[0]));
        }
        assert(whole[0] == head[0]);
        let rest = head.drop_first();
        assert(!rest.contains(sep)) by {
            if rest.contains(sep) {
                let j = choose|j: int| 0 <= j < rest.len() && rest[j] == sep;
                assert(head[j + 1] == sep);
                assert(head.contains(sep));
            }
        }
        lemma_first_sep(rest, sep, tail);
        assert(whole.drop_first() =~= rest + seq![sep] + tail);
    }
}

/// Splitting a text that begins with a field free of the separator, then
/// the separator, gives that field and the fields of the rest; a text free
/// of the separator is one field.
pub proof fn lemma_split_first(head: Seq<char>, sep: char, tail: Seq<char>)
    requires
        !head.contains(sep),
    ensures
        split(head, sep) == seq![head],
        split(head + seq![sep] + tail, sep) == seq![head] + split(tail, sep),
{
    lemma_first_sep(head, sep, tail);
    let whole = head + seq![sep] + tail;
    assert(whole.take(head.len() as int) =~= head);
    assert(whole.skip(head.len() as int + 1) =~= tail);
}

/// Fields that are free of the separator come back from their joined text.
pub proof fn lemma_split_join(parts: Seq<Seq<char>>, sep: char)
    requires
        parts.len() >= 1,
        forall|i: int| 0 <= i < parts.len() ==> !(#[trigger] parts[i]).contains(sep),
    ensures
        split(join(parts, sep), sep) == parts,
    decreases parts.len(),
{
    if parts.len() == 1 {
        lemma_split_first(parts[0], sep, Seq::<char>::empty());
        assert(seq![parts[0]] =~= parts);
    } else {
        let rest = parts.drop_first();
        assert forall|i: int| 0 <= i < rest.len() implies !(#[trigger] rest[i]).contains(sep) by {
            assert(rest[i] == parts[i + 1]);
        }
        lemma_split_join(rest, sep);
        lemma_split_first(parts[0], sep, join(rest, sep));
        assert(seq![parts[0]] + rest =~= parts);
    }
}

/// Joining one more field appends the separator, unless it is the first
/// field, and the field.
pub proof fn lemma_join_push(parts: Seq<Seq<char>>, last: Seq<char>, sep: char)
    ensures
        join(parts.push(last), sep) == if parts.len() == 0 {
            last
        } else {
            join(parts, sep) + seq![sep] + last
        },
    decreases parts.len(),
{
    let all = parts.push(last);
    if parts.len() == 0 {
        assert(all[0] == last);
    } else {
        let rest = parts.drop_first();
        lemma_join_push(rest, last, sep);
        assert(all.drop_first() =~= rest.push(last));
        assert(all[0] == parts[0]);
        if parts.len() == 1 {
            assert(rest.len() == 0);
            assert(join(all, sep) =~= parts[0] + seq![sep] + last);
        } else {
            assert(join(all, sep) =~= parts[0] + seq![sep] + (join(rest, sep) + seq![sep] + last));
            assert(join(all, sep) =~= join(parts, sep) + seq![sep] + last);
        }
    }
}

/// The fields of `text` between the occurrences of `sep`.
pub fn split_chars(text: &Vec<char>, sep: char) -> (parts: Vec<Vec<char>>)
    ensures
        views(parts@) == split(text@, sep),
{
    let mut parts: Vec<Vec<char>> = Vec::new();
    let mut current: Vec<char> = Vec::new();
    let mut i: usize = 0;
    assert(current@ + text@.skip(0) =~= text@);
    assert(views(parts@) + split(text@, sep) =~= split(text@, sep));
    while i < text.len()
        invariant
            i <= text.len(),
            !current@.contains(sep),
            split(text@, sep) == views(parts@) + split(current@ + text@.skip(i as int), sep),
        decreases text.len() - i,
    {
        let c = text[i];
        let ghost rest = text@.skip(i + 1);
        let ghost done = views(parts@);
        if c == sep {
            let ghost field = current@;
            proof {
                lemma_split_first(field, sep, rest);
                assert(field + text@.skip(i as int) =~= field + seq![sep] + rest);
            }
            parts.push(current);
            current = Vec::new();
            proof {
                assert(views(parts@) =~= done + seq![field]);
                assert(current@ + rest =~= rest);
            }
        } else {
            let ghost before = current@;
            current.push(c);
            proof {
                vstd::seq_lib::lemma_seq_contains_after_push(before, c, sep);
                assert(before + text@.skip(i as int) =~= current@ + rest);
            }
        }
        i = i + 1;
    }
    proof {
        assert(current@ + text@.skip(i as int) =~= current@);
        lemma_split_first(current@, sep, Seq::<char>::empty());
    }
    let ghost done = views(parts@);
    let ghost last = current@;
    parts.push(current);
    assert(views(parts@) =~= done + seq![last]);
    parts
}

} // verus!
