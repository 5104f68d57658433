use vstd::prelude::*;

use crate::text::{
    chars_of, extend_chars, has_prefix, push_str_chars, split_chars, split_seq, string_from_chars,
    views_of,
};

verus! {

/// One identity known to the external key-management tool: its unique key id
/// and a display name joined from its identity-label lines.
#[derive(Debug)]
pub struct KeyIdName {
    pub id: String,
    pub name: String,
}

pub open spec fn key_views(ks: Seq<KeyIdName>) -> Seq<(Seq<char>, Seq<char>)> {
    ks.map_values(|k: KeyIdName| (k.id@, k.name@))
}

/// A record line that begins a new identity.
pub open spec fn sec_marker() -> Seq<char> {
    seq!['s', 'e', 'c']
}

/// A record line that adds a display-name fragment to the current identity.
pub open spec fn uid_marker() -> Seq<char> {
    seq!['u', 'i', 'd']
}

/// The colon-delimited field at a fixed position of one listing line, if the
/// line has that many fields.
pub open spec fn line_field(l: Seq<char>, n: int) -> Option<Seq<char>> {
    let parts = split_seq(l, ':');
    if n < parts.len() {
        Some(parts[n])
    } else {
        None
    }
}

/// Display-name fragments accumulate joined with ", ".
pub open spec fn join_name(cur: Seq<char>, add: Seq<char>) -> Seq<char> {
    if cur.len() == 0 {
        add
    } else {
        cur + seq![',', ' '] + add
    }
}

/// The field position holding the key id on an identity-opening line.
pub open spec fn id_field_at() -> int {
    4
}

/// The field position holding the display name on an identity-label line.
pub open spec fn name_field_at() -> int {
    9
}

/// The parse of the key listing, line by line, carrying the identity under
/// accumulation. An opening line whose id field is present flushes the
/// accumulated identity (there is none before the first) and starts a new
/// one; a label line whose name field is present extends the accumulated
/// identity; a line whose expected field is absent is skipped, as is a label
/// line arriving before any identity was opened; the identity still under
/// accumulation when input ends is flushed last.
pub open spec fn parse_model(
    lines: Seq<Seq<char>>,
    cur: Option<(Seq<char>, Seq<char>)>,
) -> Seq<(Seq<char>, Seq<char>)>
    decreases lines.len(),
{
    if lines.len() == 0 {
        match cur {
            None => Seq::empty(),
            Some(c) => seq![c],
        }
    } else {
        let l = lines[0];
        let rest = lines.drop_first();
        if has_prefix(l, sec_marker()) {
            match line_field(l, id_field_at()) {
                None => parse_model(rest, cur),
                Some(id) => match cur {
                    None => parse_model(rest, Some((id, Seq::empty()))),
                    Some(c) => seq![c] + parse_model(rest, Some((id, Seq::empty()))),
                },
            }
        } else if has_prefix(l, uid_marker()) {
            match line_field(l, name_field_at()) {
                None => parse_model(rest, cur),
                Some(nm) => match cur {
                    None => parse_model(rest, cur),
                    Some(c) => parse_model(rest, Some((c.0, join_name(c.1, nm)))),
                },
            }
        } else {
            parse_model(rest, cur)
        }
    }
}

/// The identities the whole listing describes.
pub open spec fn identities_model(input: Seq<char>) -> Seq<(Seq<char>, Seq<char>)> {
    parse_model(split_seq(input, '\n'), None)
}

fn copy_chars(src: &Vec<char>) -> (r: Vec<char>)
    ensures
        r@ == src@,
{
    let mut r: Vec<char> = Vec::new();
    extend_chars(&mut r, src);
    assert(r@ =~= src@);
    r
}

/// Parses the machine-readable listing of the external key-management tool
/// into identity records, exactly as the parse model describes: one record
/// per opening line carrying an id, with display-name fragments of the
/// following label lines joined onto it, and malformed lines skipped.
pub fn parse_secret_keys(listing: &str) -> (r: Vec<KeyIdName>)
    ensures
        key_views(r@) == identities_model(listing@),
{
    let chars = chars_of(listing);
    let lines = split_chars(&chars, '\n');
    let mut out: Vec<KeyIdName> = Vec::new();
    let mut have_cur: bool = false;
    let mut cur_id: Vec<char> = Vec::new();
    let mut cur_name: Vec<char> = Vec::new();
    let ghost all_lines = views_of(lines@);
    proof {
        assert(all_lines.subrange(0, all_lines.len() as int) =~= all_lines);
    }
    let mut i: usize = 0;
    while i < lines.len()
        invariant
            i <= lines@.len(),
            all_lines == views_of(lines@),
            identities_model(listing@) =~= key_views(out@) + parse_model(
                all_lines.subrange(i as int, all_lines.len() as int),
                if have_cur {
                    Some((cur_id@, cur_name@))
                } else {
                    None
                },
            ),
        decreases lines@.len() - i,
    {
        let ghost remaining = all_lines.subrange(i as int, all_lines.len() as int);
        proof {
            assert(remaining[0] == lines@[i as int]@);
            assert(remaining.drop_first() =~= all_lines.subrange(i + 1, all_lines.len() as int));
        }
        let line = &lines[i];
        if starts_with_marker(line, 's', 'e', 'c') {
            proof {
                assert(line@.subrange(0, 3) =~= sec_marker());
            }
            let parts = split_chars(line, ':');
            if parts.len() > 4 {
                proof {
                    assert(views_of(parts@)[4] == parts@[4]@);
                }
                if have_cur {
                    out.push(
                        KeyIdName {
                            id: string_from_chars(&cur_id),
                            name: string_from_chars(&cur_name),
                        },
                    );
                    proof {
                        assert(key_views(out@) =~= key_views(out@.drop_last()) + seq![
                            (cur_id@, cur_name@),
                        ]);
                    }
                }
                cur_id = copy_chars(&parts[4]);
                cur_name = Vec::new();
                have_cur = true;
            } else {
                proof {
                    assert(line_field(remaining[0], id_field_at()) is None);
                }
            }
        } else if starts_with_marker(line, 'u', 'i', 'd') {
            proof {
                assert(line@.subrange(0, 3) =~= uid_marker());
            }
            let parts = split_chars(line, ':');
            if parts.len() > 9 {
                proof {
                    assert(views_of(parts@)[9] == parts@[9]@);
                }
                if have_cur {
                    if cur_name.len() > 0 {
                        push_str_chars(&mut cur_name, ", ");
                        proof {
                            reveal_strlit(", ");
                            assert(", "@ =~= seq![',', ' ']);
                        }
                    }
                    extend_chars(&mut cur_name, &parts[9]);
                }
            } else {
                proof {
                    assert(line_field(remaining[0], name_field_at()) is None);
                }
            }
        } else {
            proof {
                if line@.len() >= 3 {
                    if line@.subrange(0, 3) =~= sec_marker() {
                        assert(has_prefix(line@, sec_marker()));
                    }
                    if line@.subrange(0, 3) =~= uid_marker() {
                        assert(has_prefix(line@, uid_marker()));
                    }
                }
            }
        }
        i = i + 1;
    }
    if have_cur {
        out.push(
            KeyIdName { id: string_from_chars(&cur_id), name: string_from_chars(&cur_name) },
        );
        proof {
            assert(key_views(out@) =~= key_views(out@.drop_last()) + seq![(cur_id@, cur_name@)]);
        }
    }
    proof {
        assert(all_lines.subrange(all_lines.len() as int, all_lines.len() as int) =~= Seq::<
            Seq<char>,
        >::empty());
        assert(key_views(out@) =~= identities_model(listing@));
    }
    out
}

/// Whether the line opens with the three given marker characters.
fn starts_with_marker(line: &Vec<char>, a: char, b: char, c: char) -> (r: bool)
    ensures
        r == has_prefix(line@, seq![a, b, c]),
{
    if line.len() < 3 {
        return false;
    }
    let r = line[0] == a && line[1] == b && line[2] == c;
    proof {
        if r {
            assert(line@.subrange(0, 3) =~= seq![a, b, c]);
        } else {
            assert(line@.subrange(0, 3)[0] == line@[0]);
            assert(line@.subrange(0, 3)[1] == line@[1]);
            assert(line@.subrange(0, 3)[2] == line@[2]);
        }
    }
    r
}

impl KeyIdName {
    /// The identity shown as "(id, name)".
    pub fn display_string(&self) -> (r: String)
        ensures
            r@ == seq!['('] + self.id@ + seq![',', ' '] + self.name@ + seq![')'],
    {
        let mut v: Vec<char> = Vec::new();
        v.push('(');
        let id_chars = chars_of(self.id.as_str());
        extend_chars(&mut v, &id_chars);
        v.push(',');
        v.push(' ');
        let name_chars = chars_of(self.name.as_str());
        extend_chars(&mut v, &name_chars);
        v.push(')');
        proof {
            assert(v@ =~= seq!['('] + self.id@ + seq![',', ' '] + self.name@ + seq![')']);
        }
        string_from_chars(&v)
    }
}

} // verus!
