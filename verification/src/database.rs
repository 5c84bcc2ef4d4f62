use vstd::prelude::*;
use vstd::pervasive::VecAdditionalExecFns;
use vstd::string::{StringExecFns, StringSliceAdditionalSpecFns};
use vstd::utf8::{decode_utf8, encode_utf8};

use crate::split_str::StrSplit;
use crate::text::{find_match, first_match_at, match_at, split_around, split_head, split_pieces,
    split_rest};

verus! {

/// Why a stored database text cannot be read back.
#[derive(Debug, PartialEq, Eq)]
pub enum DbError {
    /// A line without the tab that separates a key from its value.
    CorruptedLine,
}

/// One key and value per line, separated by a tab. The newline and the tab
/// each take one UTF-8 byte.
proof fn lemma_separator_bytes()
    ensures
        encode_utf8("\n"@).len() == 1,
        encode_utf8("\t"@).len() == 1,
{
    reveal_strlit("\n");
    reveal_strlit("\t");
    assert("\n"@ =~= seq!['\n']);
    assert("\t"@ =~= seq!['\t']);
    vstd::utf8::char_is_scalar('\n');
    vstd::utf8::char_is_scalar('\t');
    assert(encode_utf8(seq!['\n']).len() == 1) by {
        reveal_with_fuel(encode_utf8, 2);
        assert(seq!['\n'].drop_first() =~= Seq::<char>::empty());
    }
    assert(encode_utf8(seq!['\t']).len() == 1) by {
        reveal_with_fuel(encode_utf8, 2);
        assert(seq!['\t'].drop_first() =~= Seq::<char>::empty());
    }
}

/// A text and its UTF-8 bytes are empty together.
proof fn lemma_encode_utf8_empty(s: Seq<char>)
    ensures
        (encode_utf8(s).len() == 0) <==> (s.len() == 0),
{
    if s.len() > 0 {
        assert(encode_utf8(s) == vstd::utf8::encode_scalar(s[0] as u32) + encode_utf8(
            s.drop_first(),
        ));
    }
}

/// The lines a stored text holds: the text cut at each newline, with the
/// empty piece after a trailing newline dropped.
pub open spec fn line_pieces(text: Seq<u8>) -> Seq<Seq<u8>> {
    let pieces = split_pieces(text, encode_utf8("\n"@));
    if pieces.len() > 0 && pieces.last().len() == 0 {
        pieces.drop_last()
    } else {
        pieces
    }
}

/// The piece holds the tab that separates a key from its value.
pub open spec fn piece_has_tab(piece: Seq<u8>) -> bool {
    exists|i: int| match_at(piece, encode_utf8("\t"@), i)
}

/// The key and value a stored line holds, or nothing for a line without a
/// tab: the text before the first tab, and the text after it.
pub open spec fn parse_piece(piece: Seq<u8>) -> Option<(Seq<char>, Seq<char>)> {
    match split_rest(piece, encode_utf8("\t"@)) {
        Some(rest) => Some(
            (
                decode_utf8(split_head(piece, encode_utf8("\t"@))),
                decode_utf8(rest),
            ),
        ),
        None => None,
    }
}

/// The keys and values that loading the given lines in order leaves behind:
/// a repeated key keeps its place and takes the last value, and a single
/// unparseable line spoils the whole load.
pub open spec fn load_entries(pieces: Seq<Seq<u8>>) -> Option<(Seq<Seq<char>>, Seq<Seq<char>>)>
    decreases pieces.len(),
{
    if pieces.len() == 0 {
        Some((Seq::empty(), Seq::empty()))
    } else {
        match load_entries(pieces.drop_last()) {
            None => None,
            Some(acc) => match parse_piece(pieces.last()) {
                None => None,
                Some(kv) => {
                    if exists|j: int| 0 <= j < acc.0.len() && acc.0[j] == kv.0 {
                        let j = choose|j: int| 0 <= j < acc.0.len() && acc.0[j] == kv.0;
                        Some((acc.0, acc.1.update(j, kv.1)))
                    } else {
                        Some((acc.0.push(kv.0), acc.1.push(kv.1)))
                    }
                },
            },
        }
    }
}

/// The pieces a splitter handed out, each as its UTF-8 bytes.
spec fn pieces_bytes(pieces: Seq<&str>) -> Seq<Seq<u8>> {
    pieces.map(|k: int, p: &str| p.spec_bytes())
}

/// How much of a splitter's haystack is still to be cut.
spec fn rem_measure(remainder: Option<Seq<u8>>) -> nat {
    match remainder {
        Some(bytes) => bytes.len() + 1,
        None => 0,
    }
}

/// One stored line: the key, a tab, the value, a newline.
pub open spec fn spec_entry(key: Seq<char>, value: Seq<char>) -> Seq<char> {
    key + seq!['\t'] + value + seq!['\n']
}

/// The stored text for the given keys and values, line by line.
pub open spec fn spec_render(keys: Seq<Seq<char>>, values: Seq<Seq<char>>) -> Seq<char>
    decreases keys.len(),
{
    if keys.len() == 0 {
        Seq::empty()
    } else {
        spec_entry(keys[0], values[0]) + spec_render(keys.drop_first(), values.drop_first())
    }
}

/// Splitting off the last entry splits off the tail of the stored text.
proof fn lemma_render_last(keys: Seq<Seq<char>>, values: Seq<Seq<char>>)
    requires
        keys.len() == values.len(),
        keys.len() > 0,
    ensures
        spec_render(keys, values) =~= spec_render(keys.drop_last(), values.drop_last())
            + spec_entry(keys.last(), values.last()),
    decreases keys.len(),
{
    reveal_with_fuel(spec_render, 2);
    if keys.len() == 1 {
        assert(keys.drop_last() =~= Seq::<Seq<char>>::empty());
        assert(keys.drop_first() =~= Seq::<Seq<char>>::empty());
        assert(spec_render(keys, values) =~= spec_entry(keys[0], values[0]));
        assert(keys.last() == keys[0]);
        assert(values.last() == values[0]);
    } else {
        lemma_render_last(keys.drop_first(), values.drop_first());
        assert(keys.drop_first().last() == keys.last());
        assert(values.drop_first().last() == values.last());
        assert(keys.drop_first().drop_last() =~= keys.drop_last().drop_first());
        assert(values.drop_first().drop_last() =~= values.drop_last().drop_first());
        assert(keys.drop_last()[0] == keys[0]);
        assert(values.drop_last()[0] == values[0]);
        assert(spec_render(keys.drop_last(), values.drop_last()) =~= spec_entry(
            keys[0],
            values[0],
        ) + spec_render(keys.drop_last().drop_first(), values.drop_last().drop_first()));
        assert(spec_render(keys, values) =~= spec_entry(keys[0], values[0]) + spec_render(
            keys.drop_first(),
            values.drop_first(),
        ));
        assert(spec_render(keys.drop_first(), values.drop_first()) =~= spec_render(
            keys.drop_first().drop_last(),
            values.drop_first().drop_last(),
        ) + spec_entry(keys.last(), values.last()));
        assert(spec_entry(keys[0], values[0]) + (spec_render(
            keys.drop_first().drop_last(),
            values.drop_first().drop_last(),
        ) + spec_entry(keys.last(), values.last())) =~= (spec_entry(keys[0], values[0])
            + spec_render(keys.drop_first().drop_last(), values.drop_first().drop_last()))
            + spec_entry(keys.last(), values.last()));
    }
}

/// One line that cannot be parsed spoils the whole load.
proof fn lemma_load_entries_none(pieces: Seq<Seq<u8>>, p: int)
    requires
        0 <= p < pieces.len(),
        parse_piece(pieces[p]) is None,
    ensures
        load_entries(pieces) is None,
    decreases pieces.len(),
{
    if p < pieces.len() - 1 {
        lemma_load_entries_none(pieces.drop_last(), p);
        assert(pieces.drop_last()[p] == pieces[p]);
    }
}

/// An in-memory key-value store bound to the path it was read from.
/// Entries keep insertion order; keys never repeat.
pub struct Database {
    file_path: String,
    map: Vec<(String, String)>,
}

impl Database {
    /// Where the store is kept on disk.
    pub closed spec fn spec_path(&self) -> Seq<char> {
        self.file_path@
    }

    /// The keys, in insertion order.
    pub closed spec fn spec_keys(&self) -> Seq<Seq<char>> {
        self.map@.map(|i: int, kv: (String, String)| kv.0@)
    }

    /// The values, in the same order as their keys.
    pub closed spec fn spec_values(&self) -> Seq<Seq<char>> {
        self.map@.map(|i: int, kv: (String, String)| kv.1@)
    }

    /// Where the store is kept on disk, for the caller that writes it back.
    pub fn file_path(&self) -> (r: &str)
        ensures
            r@ == self.spec_path(),
    {
        self.file_path.as_str()
    }

    /// Keys never repeat.
    pub open spec fn wf(&self) -> bool {
        forall|i: int, j: int| 0 <= i < j < self.spec_keys().len()
            ==> self.spec_keys()[i] != self.spec_keys()[j]
    }

    /// A store read back from the text kept at `file_path`, or a fresh one
    /// when nothing was stored yet. The caller passes what stood in the
    /// file, or nothing if there was no file.
    #[verifier::loop_isolation(false)]
    pub fn new(file_path: &str, contents: Option<&str>) -> (r: Result<Database, DbError>)
        ensures
            r matches Ok(db) ==> db.wf() && db.spec_path() == file_path@,
            contents is None ==> (r matches Ok(db) && db.spec_keys().len() == 0),
            contents matches Some(text) ==> (r is Ok <==> forall|p: int|
                0 <= p < line_pieces(text.spec_bytes()).len() ==> piece_has_tab(
                    #[trigger] line_pieces(text.spec_bytes())[p],
                )),
            contents matches Some(text) ==> (match r {
                Ok(db) => load_entries(line_pieces(text.spec_bytes())) == Some(
                    (db.spec_keys(), db.spec_values()),
                ),
                Err(_) => load_entries(line_pieces(text.spec_bytes())) is None,
            }),
            r is Err ==> contents is Some && r == Result::<Database, DbError>::Err(
                DbError::CorruptedLine,
            ),
    {
        let mut db = Database { file_path: file_path.to_owned(), map: Vec::new() };
        assert(db.spec_keys() =~= Seq::<Seq<char>>::empty());
        assert(db.spec_values() =~= Seq::<Seq<char>>::empty());
        let text = match contents {
            Some(text) => text,
            None => {
                return Ok(db);
            },
        };

        proof {
            lemma_separator_bytes();
        }
        let ghost nl = encode_utf8("\n"@);
        let mut pieces: Vec<&str> = Vec::new();
        let mut split = StrSplit::new(text, "\n");
        proof {
            assert(pieces_bytes(pieces@) + split_pieces(text.spec_bytes(), nl) =~= split_pieces(
                text.spec_bytes(),
                nl,
            ));
        }
        loop
            invariant
                split.spec_delimiter() == "\n".spec_bytes(),
                split.spec_remainder() matches Some(rem) ==> pieces_bytes(pieces@) + split_pieces(
                    rem,
                    nl,
                ) =~= split_pieces(text.spec_bytes(), nl),
                split.spec_remainder() is None ==> pieces_bytes(pieces@) =~= split_pieces(
                    text.spec_bytes(),
                    nl,
                ),
            decreases rem_measure(split.spec_remainder()),
        {
            let ghost pieces_before = pieces@;
            let ghost remainder_before = split.spec_remainder();
            match split.next() {
                Some(piece) => {
                    pieces.push(piece);
                    proof {
                        let rem = remainder_before->0;
                        assert(pieces@ =~= pieces_before.push(piece));
                        assert(pieces_bytes(pieces@) =~= pieces_bytes(pieces_before) + seq![
                            piece.spec_bytes(),
                        ]);
                        match split_rest(rem, nl) {
                            Some(rest) => {
                                assert(split_pieces(rem, nl) =~= seq![split_head(rem, nl)]
                                    + split_pieces(rest, nl));
                            },
                            None => {
                                assert(!(exists|i: int|
                                    crate::text::first_match_at(rem, nl, i)));
                                assert(split_pieces(rem, nl) =~= seq![rem]);
                                assert(split_head(rem, nl) == rem);
                            },
                        }
                    }
                },
                None => break,
            }
        }

        // The text of a flushed store ends with a newline, so the final cut
        // is empty and stands for no entry.
        if pieces.len() > 0 {
            let last_index = pieces.len() - 1;
            proof {
                lemma_encode_utf8_empty(pieces@[last_index as int]@);
            }
            if pieces[last_index].is_empty() {
                let ghost before_pop = pieces@;
                pieces.pop();
                proof {
                    assert(pieces_bytes(pieces@) =~= pieces_bytes(before_pop).drop_last());
                    assert(pieces_bytes(pieces@) =~= line_pieces(text.spec_bytes()));
                }
            } else {
                assert(pieces_bytes(pieces@) =~= line_pieces(text.spec_bytes()));
            }
        } else {
            assert(pieces_bytes(pieces@) =~= line_pieces(text.spec_bytes()));
        }

        let ghost lines = line_pieces(text.spec_bytes());
        proof {
            assert(lines.take(0) =~= Seq::<Seq<u8>>::empty());
        }
        let mut idx: usize = 0;
        while idx < pieces.len()
            invariant
                idx <= pieces@.len(),
                db.wf(),
                db.spec_path() == file_path@,
                pieces_bytes(pieces@) =~= lines,
                forall|p: int| 0 <= p < idx ==> piece_has_tab(#[trigger] lines[p]),
                load_entries(lines.take(idx as int)) == Some((db.spec_keys(), db.spec_values())),
            decreases pieces@.len() - idx,
        {
            let ghost tab = encode_utf8("\t"@);
            let ghost piece = lines[idx as int];
            match Self::parse_line(pieces[idx]) {
                Ok(kv) => {
                    proof {
                        assert(pieces@[idx as int].spec_bytes() == piece);
                        assert(piece_has_tab(piece));
                    }
                    let ghost keys_before = db.spec_keys();
                    let ghost values_before = db.spec_values();
                    let ghost key_chars = kv.0@;
                    let ghost value_chars = kv.1@;
                    proof {
                        // The executable parse read exactly what the spec
                        // parser reads from this line.
                        let iw = choose|i: int|
                            first_match_at(piece, tab, i) && encode_utf8(key_chars)
                                == piece.subrange(0, i) && encode_utf8(value_chars)
                                == piece.subrange(i + tab.len(), piece.len() as int);
                        assert(first_match_at(piece, tab, iw));
                        crate::text::lemma_first_match_unique(
                            piece,
                            tab,
                            iw,
                            choose|i: int| first_match_at(piece, tab, i),
                        );
                        assert(split_head(piece, tab) == piece.subrange(0, iw));
                        assert(split_rest(piece, tab) == Some(
                            piece.subrange(iw + tab.len(), piece.len() as int),
                        ));
                        vstd::utf8::encode_utf8_decode_utf8(key_chars);
                        vstd::utf8::encode_utf8_decode_utf8(value_chars);
                        assert(parse_piece(piece) == Some((key_chars, value_chars)));
                    }
                    db.insert(kv.0, kv.1);
                    proof {
                        assert(lines.take(idx + 1).drop_last() =~= lines.take(idx as int));
                        assert(lines.take(idx + 1).last() == piece);
                        if exists|j: int| 0 <= j < keys_before.len() && keys_before[j]
                            == key_chars {
                            let jl = choose|j: int|
                                0 <= j < keys_before.len() && keys_before[j] == key_chars;
                            assert forall|j1: int, j2: int|
                                0 <= j1 < keys_before.len() && keys_before[j1] == key_chars
                                    && 0 <= j2 < keys_before.len() && keys_before[j2]
                                    == key_chars implies j1 == j2 by {}
                            assert(db.spec_keys() =~= keys_before);
                            assert(db.spec_values() =~= values_before.update(jl, value_chars));
                        } else {
                            assert(db.spec_keys() =~= keys_before.push(key_chars));
                            assert(db.spec_values() =~= values_before.push(value_chars));
                        }
                        assert(load_entries(lines.take(idx + 1)) == Some(
                            (db.spec_keys(), db.spec_values()),
                        ));
                    }
                },
                Err(e) => {
                    proof {
                        assert(pieces@[idx as int].spec_bytes() == piece);
                        assert(!piece_has_tab(piece));
                        assert(parse_piece(piece) is None);
                        lemma_load_entries_none(lines, idx as int);
                    }
                    return Err(e);
                },
            }
            idx = idx + 1;
        }
        proof {
            assert(pieces_bytes(pieces@).len() == pieces@.len());
            assert(lines.take(idx as int) =~= lines);
        }
        Ok(db)
    }

    /// The key and value stored in one line: what stands before the first
    /// tab, and what stands after it. A line without a tab is corrupted.
    pub fn parse_line(line: &str) -> (r: Result<(String, String), DbError>)
        ensures
            r is Ok <==> exists|i: int|
                crate::text::match_at(line.spec_bytes(), encode_utf8("\t"@), i),
            r matches Ok(kv) ==> exists|i: int|
                {
                    &&& #[trigger] first_match_at(line.spec_bytes(), encode_utf8("\t"@), i)
                    &&& encode_utf8(kv.0@) == line.spec_bytes().subrange(0, i)
                    &&& encode_utf8(kv.1@) == line.spec_bytes().subrange(
                        i + encode_utf8("\t"@).len(),
                        line.spec_bytes().len() as int,
                    )
                },
            r is Err ==> r == Result::<(String, String), DbError>::Err(DbError::CorruptedLine),
    {
        match find_match(line, "\t") {
            Some(i) => {
                proof {
                    assert("\t".spec_bytes() == encode_utf8("\t"@));
                    assert(first_match_at(line.spec_bytes(), encode_utf8("\t"@), i as int));
                }
                let (key, value) = split_around(line, i, "\t".as_bytes().len());
                Ok((key.to_owned(), value.to_owned()))
            },
            None => {
                assert forall|j: int|
                    !crate::text::match_at(line.spec_bytes(), encode_utf8("\t"@), j) by {
                    assert(!crate::text::match_at(line.spec_bytes(), "\t".spec_bytes(), j));
                }
                Err(DbError::CorruptedLine)
            },
        }
    }

    /// Store `value` under `key`: the value under an existing key is
    /// replaced, a new key is appended at the end.
    #[verifier::loop_isolation(false)]
    pub fn insert(&mut self, key: String, value: String)
        requires
            old(self).wf(),
        ensures
            final(self).wf(),
            final(self).spec_path() == old(self).spec_path(),
            (exists|j: int| 0 <= j < old(self).spec_keys().len()
                && old(self).spec_keys()[j] == key@) ==> {
                let j = choose|j: int| 0 <= j < old(self).spec_keys().len()
                    && old(self).spec_keys()[j] == key@;
                final(self).spec_keys() =~= old(self).spec_keys() && final(self).spec_values()
                    =~= old(self).spec_values().update(j, value@)
            },
            !(exists|j: int| 0 <= j < old(self).spec_keys().len()
                && old(self).spec_keys()[j] == key@) ==> final(self).spec_keys()
                =~= old(self).spec_keys().push(key@) && final(self).spec_values()
                =~= old(self).spec_values().push(value@),
    {
        let mut j: usize = 0;
        while j < self.map.len()
            invariant
                *self == *old(self),
                forall|k: int| 0 <= k < j ==> old(self).spec_keys()[k] != key@,
            decreases self.map@.len() - j,
        {
            if self.map[j].0 == key {
                assert(old(self).spec_keys()[j as int] == key@);
                self.map.set(j, (key, value));
                proof {
                    let j0 = choose|j0: int| 0 <= j0 < old(self).spec_keys().len()
                        && old(self).spec_keys()[j0] == key@;
                    if j0 < j {
                        assert(old(self).spec_keys()[j0] != old(self).spec_keys()[j as int]);
                    } else if j < j0 {
                        assert(old(self).spec_keys()[j as int] != old(self).spec_keys()[j0]);
                    }
                    assert(j0 == j);
                    assert(final(self).spec_keys() =~= old(self).spec_keys());
                    assert(final(self).spec_values() =~= old(self).spec_values().update(
                        j as int,
                        value@,
                    ));
                }
                return;
            }
            j = j + 1;
        }
        self.map.push((key, value));
        assert(final(self).spec_keys() =~= old(self).spec_keys().push(key@));
        assert(final(self).spec_values() =~= old(self).spec_values().push(value@));
    }

    /// The text that stands for the whole store: each entry as its own
    /// line, in insertion order. Writing it back to the file is the
    /// caller's business.
    pub fn contents(&self) -> (r: String)
        ensures
            r@ == spec_render(self.spec_keys(), self.spec_values()),
    {
        proof {
            reveal_strlit("\t");
            reveal_strlit("\n");
            assert("\t"@ =~= seq!['\t']);
            assert("\n"@ =~= seq!['\n']);
        }
        let mut result = String::new();
        let mut i: usize = 0;
        while i < self.map.len()
            invariant
                i <= self.map@.len(),
                "\t"@ == seq!['\t'],
                "\n"@ == seq!['\n'],
                result@ == spec_render(
                    self.spec_keys().take(i as int),
                    self.spec_values().take(i as int),
                ),
            decreases self.map@.len() - i,
        {
            result.append(self.map[i].0.as_str());
            result.append("\t");
            result.append(self.map[i].1.as_str());
            result.append("\n");
            proof {
                let upto = self.spec_keys().take(i + 1);
                let vals_upto = self.spec_values().take(i + 1);
                lemma_render_last(upto, vals_upto);
                assert(upto.drop_last() =~= self.spec_keys().take(i as int));
                assert(vals_upto.drop_last() =~= self.spec_values().take(i as int));
                assert(upto.last() == self.spec_keys()[i as int]);
                assert(vals_upto.last() == self.spec_values()[i as int]);
                assert(result@ =~= spec_render(upto, vals_upto));
            }
            i = i + 1;
        }
        assert(self.spec_keys().take(i as int) =~= self.spec_keys());
        assert(self.spec_values().take(i as int) =~= self.spec_values());
        result
    }
}

} // verus!
