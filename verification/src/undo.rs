//! The undo stack and its file: one action per line, fields separated by
//! NUL, move pairs by `\x1e` and the two paths of a pair by `\x1f`.

use vstd::prelude::*;
use crate::fileops::{counted, undo_move_message, undo_move_spec, undo_trash_message};
use crate::text::{
    chars_eq, chars_of, decimal, join_lines, lemma_decimal_parse, lemma_first_index_concat,
    lemma_first_index_none, lemma_join_push, lemma_lines_join, lemma_nonblank_all,
    lemma_trim_id, lines, nonblank, parse_unsigned, parse_unsigned_chars, plain_line, push_all,
    push_char, push_decimal, push_str, split_chars, lacks, lemma_lacks, lemma_decimal_lacks, split_lines, split_on, split_once,
    split_once_chars, string_from_chars, trim, trim_chars, is_space,
};

verus! {

/// The most actions the undo stack keeps.
pub const UNDO_CAP: usize = 50;

/// A file operation that can be undone.
pub enum UndoAction {
    Rename { from: String, to: String },
    Move { pairs: Vec<(String, String)> },
    Trash { count: usize },
}

/// The contents of an undo action.
pub enum UndoView {
    Rename { from: Seq<char>, to: Seq<char> },
    Move { pairs: Seq<(Seq<char>, Seq<char>)> },
    Trash { count: nat },
}

/// The contents of a path pair.
pub open spec fn pair_view(p: (String, String)) -> (Seq<char>, Seq<char>) {
    (p.0@, p.1@)
}

impl UndoAction {
    /// The contents of the action.
    pub open spec fn view(&self) -> UndoView {
        match self {
            UndoAction::Rename { from, to } => UndoView::Rename { from: from@, to: to@ },
            UndoAction::Move { pairs } => UndoView::Move {
                pairs: pairs@.map_values(|p: (String, String)| pair_view(p)),
            },
            UndoAction::Trash { count } => UndoView::Trash { count: *count as nat },
        }
    }
}

/// The contents of an undo stack.
pub open spec fn stack_view(s: Seq<UndoAction>) -> Seq<UndoView> {
    s.map_values(|a: UndoAction| a@)
}

/// Pushes an action, dropping the oldest one when the stack grows past
/// [`UNDO_CAP`].
pub fn push_undo(stack: &mut Vec<UndoAction>, action: UndoAction)
    ensures
        stack_view(final(stack)@) == if old(stack)@.len() + 1 > UNDO_CAP {
            stack_view(old(stack)@).push(action@).drop_first()
        } else {
            stack_view(old(stack)@).push(action@)
        },
{
    let ghost a = action@;
    stack.push(action);
    assert(stack_view(stack@) =~= stack_view(old(stack)@).push(a));
    if stack.len() > UNDO_CAP {
        stack.remove(0);
        assert(stack_view(stack@) =~= stack_view(old(stack)@).push(a).drop_first());
    }
}

/// An undo stack never holds more than [`UNDO_CAP`] actions, and the newest
/// is on top.
pub proof fn lemma_push_undo_cap(s: Seq<UndoView>, a: UndoView)
    requires
        s.len() <= UNDO_CAP,
    ensures
        ({
            let t = if s.len() + 1 > UNDO_CAP {
                s.push(a).drop_first()
            } else {
                s.push(a)
            };
            t.len() <= UNDO_CAP && t.last() == a
        }),
{
}

/// The text of a path pair: `src\x1fdst`.
pub open spec fn pair_text(p: (Seq<char>, Seq<char>)) -> Seq<char> {
    p.0 + seq!['\x1f'] + p.1
}

/// Pieces joined with `sep` between them.
pub open spec fn join_with(ps: Seq<Seq<char>>, sep: char) -> Seq<char>
    decreases ps.len(),
{
    if ps.len() == 0 {
        seq![]
    } else if ps.len() == 1 {
        ps[0]
    } else {
        ps[0] + seq![sep] + join_with(ps.drop_first(), sep)
    }
}

/// The line written for an action.
pub open spec fn undo_line_spec(a: UndoView) -> Seq<char> {
    match a {
        UndoView::Rename { from, to } => "rename"@ + seq!['\0'] + from + seq!['\0'] + to,
        UndoView::Move { pairs } => "move"@ + seq!['\0'] + join_with(
            pairs.map_values(|p: (Seq<char>, Seq<char>)| pair_text(p)),
            '\x1e',
        ),
        UndoView::Trash { count } => "trash"@ + seq!['\0'] + decimal(count),
    }
}

/// The undo file body for a stack.
pub open spec fn undo_body_spec(s: Seq<UndoView>) -> Seq<char> {
    join_lines(s.map_values(|a: UndoView| undo_line_spec(a)))
}

/// The pairs of a move line: every piece with a `\x1f` gives the texts
/// before it and between it and the next `\x1f`.
pub open spec fn pairs_of(pieces: Seq<Seq<char>>) -> Seq<(Seq<char>, Seq<char>)>
    decreases pieces.len(),
{
    if pieces.len() == 0 {
        seq![]
    } else {
        let it = split_on(pieces.last(), '\x1f');
        if it.len() >= 2 {
            pairs_of(pieces.drop_last()).push((it[0], it[1]))
        } else {
            pairs_of(pieces.drop_last())
        }
    }
}

/// The action a line of the undo file describes, if any.
pub open spec fn parse_undo_line_spec(line: Seq<char>) -> Option<UndoView> {
    let l = trim(line);
    if l.len() == 0 {
        None
    } else {
        match split_once(l, '\0') {
            None => None,
            Some((kind, rest)) => if kind == "rename"@ {
                let it = split_on(rest, '\0');
                if it.len() >= 2 {
                    Some(UndoView::Rename { from: it[0], to: it[1] })
                } else {
                    None
                }
            } else if kind == "move"@ {
                let ps = pairs_of(split_on(rest, '\x1e'));
                if ps.len() > 0 {
                    Some(UndoView::Move { pairs: ps })
                } else {
                    None
                }
            } else if kind == "trash"@ {
                match parse_unsigned(rest, usize::MAX as nat) {
                    Some(n) => Some(UndoView::Trash { count: n }),
                    None => None,
                }
            } else {
                None
            },
        }
    }
}

/// The actions of the lines `ls`, in order.
pub open spec fn undo_entries(ls: Seq<Seq<char>>) -> Seq<UndoView>
    decreases ls.len(),
{
    if ls.len() == 0 {
        seq![]
    } else {
        match parse_undo_line_spec(ls.last()) {
            Some(a) => undo_entries(ls.drop_last()).push(a),
            None => undo_entries(ls.drop_last()),
        }
    }
}

/// The newest [`UNDO_CAP`] entries.
pub open spec fn keep_newest(s: Seq<UndoView>) -> Seq<UndoView> {
    if s.len() > UNDO_CAP {
        s.skip(s.len() - UNDO_CAP)
    } else {
        s
    }
}

/// The undo stack an undo file body describes.
pub open spec fn parse_undo_spec(body: Seq<char>) -> Seq<UndoView> {
    keep_newest(undo_entries(lines(body)))
}

fn pairs_from_pieces(pieces: &Vec<Vec<char>>) -> (r: Vec<(String, String)>)
    ensures
        r@.map_values(|p: (String, String)| pair_view(p)) == pairs_of(
            pieces@.map_values(|v: Vec<char>| v@),
        ),
{
    let ghost ps = pieces@.map_values(|v: Vec<char>| v@);
    let mut out: Vec<(String, String)> = Vec::new();
    let mut i: usize = 0;
    assert(ps.take(0) =~= Seq::<Seq<char>>::empty());
    while i < pieces.len()
        invariant
            i <= pieces@.len(),
            ps == pieces@.map_values(|v: Vec<char>| v@),
            out@.map_values(|p: (String, String)| pair_view(p)) == pairs_of(ps.take(i as int)),
        decreases pieces@.len() - i,
    {
        assert(ps.take(i + 1).drop_last() =~= ps.take(i as int));
        assert(ps.take(i + 1).last() == pieces@[i as int]@);
        let it = split_chars(pieces[i].as_slice(), '\x1f');
        if it.len() >= 2 {
            let a = string_from_chars(it[0].as_slice());
            let b = string_from_chars(it[1].as_slice());
            let ghost before = out@;
            out.push((a, b));
            assert(out@.map_values(|p: (String, String)| pair_view(p)) =~= before.map_values(
                |p: (String, String)| pair_view(p),
            ).push((a@, b@)));
        }
        i += 1;
    }
    assert(ps.take(pieces@.len() as int) =~= ps);
    out
}

/// The action a line of the undo file describes, if any.
pub fn parse_undo_line(line: &[char]) -> (r: Option<UndoAction>)
    ensures
        match r {
            Some(a) => parse_undo_line_spec(line@) == Some(a@),
            None => parse_undo_line_spec(line@) is None,
        },
{
    let l = trim_chars(line);
    if l.len() == 0 {
        return None;
    }
    let (kind, rest) = match split_once_chars(l.as_slice(), '\0') {
        Some(p) => p,
        None => return None,
    };
    let rename = chars_of("rename");
    let mv = chars_of("move");
    let trash = chars_of("trash");
    if chars_eq(kind.as_slice(), rename.as_slice()) {
        let it = split_chars(rest.as_slice(), '\0');
        if it.len() >= 2 {
            let from = string_from_chars(it[0].as_slice());
            let to = string_from_chars(it[1].as_slice());
            Some(UndoAction::Rename { from, to })
        } else {
            None
        }
    } else if chars_eq(kind.as_slice(), mv.as_slice()) {
        let pieces = split_chars(rest.as_slice(), '\x1e');
        assert(pieces@.map_values(|v: Vec<char>| v@) =~= split_on(rest@, '\x1e'));
        let pairs = pairs_from_pieces(&pieces);
        if pairs.len() > 0 {
            Some(UndoAction::Move { pairs })
        } else {
            None
        }
    } else if chars_eq(kind.as_slice(), trash.as_slice()) {
        match parse_unsigned_chars(rest.as_slice(), usize::MAX as u64) {
            Some(n) => Some(UndoAction::Trash { count: n as usize }),
            None => None,
        }
    } else {
        None
    }
}

/// The undo stack an undo file body describes (what `load_undo` reads).
pub fn parse_undo(body: &str) -> (r: Vec<UndoAction>)
    ensures
        stack_view(r@) == parse_undo_spec(body@),
{
    let v = chars_of(body);
    let ls = split_lines(v.as_slice());
    let ghost all = lines(v@);
    let mut out: Vec<UndoAction> = Vec::new();
    let mut i: usize = 0;
    assert(all.take(0) =~= Seq::<Seq<char>>::empty());
    while i < ls.len()
        invariant
            i <= ls@.len(),
            ls@.len() == all.len(),
            forall|k: int| 0 <= k < ls@.len() ==> #[trigger] ls@[k]@ == all[k],
            stack_view(out@) == undo_entries(all.take(i as int)),
        decreases ls@.len() - i,
    {
        assert(all.take(i + 1).drop_last() =~= all.take(i as int));
        assert(all.take(i + 1).last() == ls@[i as int]@);
        if let Some(a) = parse_undo_line(ls[i].as_slice()) {
            let ghost before = out@;
            out.push(a);
            assert(stack_view(out@) =~= stack_view(before).push(a@));
        }
        i += 1;
    }
    assert(all.take(ls@.len() as int) =~= all);
    let n = out.len();
    if n > UNDO_CAP {
        let ghost full = out@;
        let mut rest = out;
        let tail = rest.split_off(n - UNDO_CAP);
        assert(stack_view(tail@) =~= stack_view(full).skip(n - UNDO_CAP));
        return tail;
    }
    out
}

/// The undo file line for an action.
pub fn undo_line(a: &UndoAction) -> (r: String)
    ensures
        r@ == undo_line_spec(a@),
{
    let mut s = String::new();
    match a {
        UndoAction::Rename { from, to } => {
            push_str(&mut s, "rename");
            push_char(&mut s, '\0');
            push_str(&mut s, from.as_str());
            push_char(&mut s, '\0');
            push_str(&mut s, to.as_str());
        },
        UndoAction::Move { pairs } => {
            push_str(&mut s, "move");
            push_char(&mut s, '\0');
            let ghost texts = pairs@.map_values(|p: (String, String)| pair_view(p)).map_values(
                |p: (Seq<char>, Seq<char>)| pair_text(p),
            );
            let ghost base = s@;
            let mut i: usize = 0;
            while i < pairs.len()
                invariant
                    i <= pairs@.len(),
                    texts == pairs@.map_values(|p: (String, String)| pair_view(p)).map_values(
                        |p: (Seq<char>, Seq<char>)| pair_text(p),
                    ),
                    s@ == base + join_with(texts.take(i as int), '\x1e'),
                decreases pairs@.len() - i,
            {
                let ghost prev = s@;
                if i > 0 {
                    push_char(&mut s, '\x1e');
                }
                push_str(&mut s, pairs[i].0.as_str());
                push_char(&mut s, '\x1f');
                push_str(&mut s, pairs[i].1.as_str());
                proof {
                    let t = pair_text(pair_view(pairs@[i as int]));
                    assert(texts[i as int] == t);
                    if i > 0 {
                        lemma_join_with_push(texts.take(i as int), t, '\x1e');
                        assert(texts.take(i as int).push(t) =~= texts.take(i + 1));
                        assert(s@ =~= base + join_with(texts.take(i + 1), '\x1e'));
                    } else {
                        assert(texts.take(1) =~= seq![t]);
                        assert(s@ =~= base + join_with(texts.take(1), '\x1e'));
                    }
                }
                i += 1;
            }
            assert(texts.take(pairs@.len() as int) =~= texts);
            assert(texts =~= match a@ {
                UndoView::Move { pairs } => pairs.map_values(
                    |p: (Seq<char>, Seq<char>)| pair_text(p),
                ),
                _ => texts,
            });
        },
        UndoAction::Trash { count } => {
            push_str(&mut s, "trash");
            push_char(&mut s, '\0');
            push_decimal(&mut s, *count as u64);
        },
    }
    s
}

proof fn lemma_join_with_push(ps: Seq<Seq<char>>, x: Seq<char>, sep: char)
    requires
        ps.len() > 0,
    ensures
        join_with(ps.push(x), sep) == join_with(ps, sep) + seq![sep] + x,
    decreases ps.len(),
{
    if ps.len() == 1 {
        assert(ps.push(x).drop_first() =~= seq![x]);
        assert(join_with(seq![x], sep) == x);
        assert(ps.push(x)[0] == ps[0]);
    } else {
        lemma_join_with_push(ps.drop_first(), x, sep);
        assert(ps.push(x).drop_first() =~= ps.drop_first().push(x));
        assert(join_with(ps.push(x), sep) =~= join_with(ps, sep) + seq![sep] + x);
    }
}

/// The undo file body for a stack (what `save_undo` writes).
pub fn undo_body(stack: &Vec<UndoAction>) -> (r: String)
    ensures
        r@ == undo_body_spec(stack_view(stack@)),
{
    let ghost ls = stack_view(stack@).map_values(|a: UndoView| undo_line_spec(a));
    let mut s = String::new();
    let mut i: usize = 0;
    while i < stack.len()
        invariant
            i <= stack@.len(),
            ls == stack_view(stack@).map_values(|a: UndoView| undo_line_spec(a)),
            s@ == join_lines(ls.take(i as int)),
        decreases stack@.len() - i,
    {
        let line = undo_line(&stack[i]);
        assert(line@ == ls[i as int]);
        if i > 0 {
            push_char(&mut s, '\n');
            proof {
                lemma_join_push(ls.take(i as int), line@);
                assert(ls.take(i as int).push(line@) =~= ls.take(i + 1));
            }
        } else {
            assert(ls.take(1) =~= seq![line@]);
        }
        let lc = chars_of(line.as_str());
        push_all(&mut s, lc.as_slice());
        i += 1;
    }
    assert(ls.take(stack@.len() as int) =~= ls);
    s
}

/// A path that ends without whitespace: the file's lines are trimmed, so
/// whitespace at the end of a line is lost.
pub open spec fn no_trailing_space(p: Seq<char>) -> bool {
    p.len() == 0 || !is_space(p.last())
}

/// A path of a rename fits in its line: no line feed and no NUL, which
/// separates the fields.
pub open spec fn rename_path_ok(p: Seq<char>) -> bool {
    lacks(p, '\0') && lacks(p, '\n')
}

/// A path of a move fits in its line: no line feed, and none of the pair
/// and path separators.
pub open spec fn move_path_ok(p: Seq<char>) -> bool {
    &&& lacks(p, '\n')
    &&& lacks(p, '\x1e')
    &&& lacks(p, '\x1f')
}

/// An action that the undo file stores faithfully: what the format cannot
/// hold is a separator inside a field and whitespace at the end of the
/// line, which the trimming of lines drops.
pub open spec fn savable_action(a: UndoView) -> bool {
    match a {
        UndoView::Rename { from, to } => rename_path_ok(from) && rename_path_ok(to) && no_trailing_space(to),
        UndoView::Move { pairs } => pairs.len() > 0 && (forall|i: int|
            0 <= i < pairs.len() ==> move_path_ok(#[trigger] pairs[i].0) && move_path_ok(pairs[i].1))
            && no_trailing_space(pairs.last().1),
        UndoView::Trash { count } => count <= usize::MAX,
    }
}

proof fn lemma_split_join(ps: Seq<Seq<char>>, c: char)
    requires
        ps.len() > 0,
        forall|i: int| 0 <= i < ps.len() ==> lacks(#[trigger] ps[i], c),
    ensures
        split_on(join_with(ps, c), c) == ps,
    decreases ps.len(),
{
    assert(lacks(ps[0], c));
    if ps.len() == 1 {
        lemma_first_index_none(ps[0], c);
        assert(split_on(ps[0], c) =~= ps);
    } else {
        let rest = ps.drop_first();
        assert forall|i: int| 0 <= i < rest.len() implies lacks(#[trigger] rest[i], c) by {
            assert(rest[i] == ps[i + 1]);
        }
        lemma_split_join(rest, c);
        lemma_first_index_concat(ps[0], join_with(rest, c), c);
        assert(split_on(join_with(ps, c), c) =~= seq![ps[0]] + rest);
        assert(ps =~= seq![ps[0]] + rest);
    }
}

proof fn lemma_join_with_last(ps: Seq<Seq<char>>, c: char)
    requires
        ps.len() > 0,
        ps.last().len() > 0,
    ensures
        join_with(ps, c).len() > 0,
        join_with(ps, c).last() == ps.last().last(),
    decreases ps.len(),
{
    if ps.len() > 1 {
        lemma_join_with_last(ps.drop_first(), c);
    }
}

proof fn lemma_join_with_lacks(ps: Seq<Seq<char>>, c: char, x: char)
    requires
        c != x,
        forall|i: int| 0 <= i < ps.len() ==> lacks(#[trigger] ps[i], x),
    ensures
        lacks(join_with(ps, c), x),
    decreases ps.len(),
{
    if ps.len() == 1 {
        assert(lacks(ps[0], x));
    } else if ps.len() > 1 {
        let rest = ps.drop_first();
        assert forall|i: int| 0 <= i < rest.len() implies lacks(#[trigger] rest[i], x) by {
            assert(rest[i] == ps[i + 1]);
        }
        lemma_join_with_lacks(rest, c, x);
        assert(lacks(ps[0], x));
        let j = join_with(ps, c);
        assert(j =~= ps[0] + seq![c] + join_with(rest, c));
        assert forall|i: int| 0 <= i < j.len() implies #[trigger] j[i] != x by {
            if i < ps[0].len() {
                assert(j[i] == ps[0][i]);
            } else if i > ps[0].len() {
                assert(j[i] == join_with(rest, c)[i - ps[0].len() - 1]);
            }
        }
    }
}

proof fn lemma_pairs_of_texts(pairs: Seq<(Seq<char>, Seq<char>)>)
    requires
        forall|i: int|
            0 <= i < pairs.len() ==> lacks(#[trigger] pairs[i].0, '\x1f') && lacks(
                pairs[i].1,
                '\x1f',
            ),
    ensures
        pairs_of(pairs.map_values(|p: (Seq<char>, Seq<char>)| pair_text(p))) == pairs,
    decreases pairs.len(),
{
    if pairs.len() > 0 {
        let init = pairs.drop_last();
        assert forall|i: int| 0 <= i < init.len() implies lacks(#[trigger] init[i].0, '\x1f')
            && lacks(init[i].1, '\x1f') by {
            assert(init[i] == pairs[i]);
        }
        lemma_pairs_of_texts(init);
        let texts = pairs.map_values(|p: (Seq<char>, Seq<char>)| pair_text(p));
        assert(texts.drop_last() =~= init.map_values(|p: (Seq<char>, Seq<char>)| pair_text(p)));
        let last = pairs.last();
        assert(lacks(pairs[pairs.len() - 1].0, '\x1f'));
        assert(lacks(pairs[pairs.len() - 1].1, '\x1f'));
        lemma_first_index_concat(last.0, last.1, '\x1f');
        lemma_first_index_none(last.1, '\x1f');
        lemma_lacks(last.0, '\x1f');
        lemma_lacks(last.1, '\x1f');
        lemma_first_index_concat(last.0, last.1, '\x1f');
        lemma_first_index_none(last.1, '\x1f');
        assert(texts.last() == last.0 + seq!['\x1f'] + last.1);
        assert(split_on(last.1, '\x1f') == seq![last.1]);
        assert(split_on(texts.last(), '\x1f') == seq![last.0] + split_on(last.1, '\x1f'));
        assert(split_on(texts.last(), '\x1f') =~= seq![last.0, last.1]);
        assert(init.push(last) =~= pairs);
    }
}

/// The line written for a storable action reads back as that action.
#[verifier::rlimit(30)]
pub proof fn lemma_undo_line_roundtrip(a: UndoView)
    requires
        savable_action(a),
    ensures
        parse_undo_line_spec(undo_line_spec(a)) == Some(a),
        plain_line(undo_line_spec(a)),
{
    reveal_strlit("rename");
    reveal_strlit("move");
    reveal_strlit("trash");
    let line = undo_line_spec(a);
    let nul = seq!['\0'];
    match a {
        UndoView::Rename { from, to } => {
            let k = "rename"@;
            let rest = from + nul + to;
            assert(line =~= k + nul + rest);
            assert(lacks(k, '\0'));
            lemma_first_index_concat(k, rest, '\0');
            lemma_first_index_concat(from, to, '\0');
            lemma_first_index_none(to, '\0');
            lemma_lacks(from, '\0');
            lemma_lacks(to, '\0');
            lemma_first_index_concat(from, to, '\0');
            lemma_first_index_none(to, '\0');
            assert(split_on(to, '\0') == seq![to]);
            assert(split_on(rest, '\0') == seq![from] + split_on(to, '\0'));
            assert(split_on(rest, '\0') =~= seq![from, to]);
            assert(line.last() == if to.len() > 0 {
                to.last()
            } else {
                '\0'
            });
            lemma_trim_id(line);
            assert(lacks(line, '\n')) by {
                assert forall|i: int| 0 <= i < line.len() implies #[trigger] line[i] != '\n' by {
                    if 7 <= i < 7 + from.len() {
                        assert(line[i] == from[i - 7]);
                    } else if i > 7 + from.len() {
                        assert(line[i] == to[i - 8 - from.len()]);
                    }
                }
            }
            lemma_lacks(line, '\n');
        },
        UndoView::Move { pairs } => {
            let k = "move"@;
            let texts = pairs.map_values(|p: (Seq<char>, Seq<char>)| pair_text(p));
            let rest = join_with(texts, '\x1e');
            assert(line =~= k + nul + rest);
            assert(lacks(k, '\0'));
            lemma_first_index_concat(k, rest, '\0');
            assert forall|i: int| 0 <= i < texts.len() implies lacks(#[trigger] texts[i], '\x1e')
                && lacks(texts[i], '\n') by {
                assert(move_path_ok(pairs[i].0));
                assert(move_path_ok(pairs[i].1));
                let t = texts[i];
                assert(t =~= pairs[i].0 + seq!['\x1f'] + pairs[i].1);
                assert forall|j: int| 0 <= j < t.len() implies #[trigger] t[j] != '\x1e' && t[j]
                    != '\n' by {
                    if j < pairs[i].0.len() {
                        assert(t[j] == pairs[i].0[j]);
                    } else if j > pairs[i].0.len() {
                        assert(t[j] == pairs[i].1[j - pairs[i].0.len() - 1]);
                    }
                }
            }
            lemma_split_join(texts, '\x1e');
            assert forall|i: int| 0 <= i < pairs.len() implies lacks(#[trigger] pairs[i].0, '\x1f')
                && lacks(pairs[i].1, '\x1f') by {
                assert(move_path_ok(pairs[i].0));
            }
            lemma_pairs_of_texts(pairs);
            let lp = pairs.last();
            assert(move_path_ok(pairs[pairs.len() - 1].1));
            assert(texts.last() =~= lp.0 + seq!['\x1f'] + lp.1);
            lemma_join_with_last(texts, '\x1e');
            assert(line.last() == rest.last());
            lemma_trim_id(line);
            lemma_join_with_lacks(texts, '\x1e', '\n');
            assert(lacks(line, '\n')) by {
                assert forall|i: int| 0 <= i < line.len() implies #[trigger] line[i] != '\n' by {
                    if i >= 5 {
                        assert(line[i] == rest[i - 5]);
                    }
                }
            }
            lemma_lacks(line, '\n');
        },
        UndoView::Trash { count } => {
            let k = "trash"@;
            let d = decimal(count);
            assert(line =~= k + nul + d);
            assert(lacks(k, '\0'));
            lemma_first_index_concat(k, d, '\0');
            lemma_decimal_parse(count, usize::MAX as nat);
            lemma_decimal_lacks(count, '\n');
            assert(line.last() == d.last());
            assert(crate::text::is_digit(d[d.len() - 1]));
            lemma_trim_id(line);
            assert(lacks(line, '\n')) by {
                assert forall|i: int| 0 <= i < line.len() implies #[trigger] line[i] != '\n' by {
                    if i >= 6 {
                        assert(line[i] == d[i - 6]);
                    }
                }
            }
            lemma_lacks(line, '\n');
        },
    }
}

proof fn lemma_undo_entries_all(ls: Seq<Seq<char>>, s: Seq<UndoView>)
    requires
        ls.len() == s.len(),
        forall|i: int| 0 <= i < ls.len() ==> parse_undo_line_spec(#[trigger] ls[i]) == Some(s[i]),
    ensures
        undo_entries(ls) == s,
    decreases ls.len(),
{
    if ls.len() > 0 {
        let li = ls.drop_last();
        let si = s.drop_last();
        assert forall|i: int| 0 <= i < li.len() implies parse_undo_line_spec(#[trigger] li[i])
            == Some(si[i]) by {
            assert(li[i] == ls[i]);
        }
        lemma_undo_entries_all(li, si);
        assert(parse_undo_line_spec(ls[ls.len() - 1]) == Some(s[s.len() - 1]));
        assert(si.push(s.last()) =~= s);
    }
}

/// Saving an undo stack of storable actions and loading it back gives its
/// newest [`UNDO_CAP`] actions, in order: the whole stack when it holds no
/// more.
pub proof fn lemma_undo_roundtrip(s: Seq<UndoView>)
    requires
        forall|i: int| 0 <= i < s.len() ==> savable_action(#[trigger] s[i]),
    ensures
        parse_undo_spec(undo_body_spec(s)) == keep_newest(s),
        s.len() <= UNDO_CAP ==> parse_undo_spec(undo_body_spec(s)) == s,
{
    let ls = s.map_values(|a: UndoView| undo_line_spec(a));
    assert forall|i: int| 0 <= i < ls.len() implies plain_line(#[trigger] ls[i])
        && parse_undo_line_spec(ls[i]) == Some(s[i]) by {
        assert(savable_action(s[i]));
        lemma_undo_line_roundtrip(s[i]);
    }
    lemma_lines_join(ls);
    lemma_undo_entries_all(ls, s);
}

/// The moves an action recorded, as (from, to) paths.
pub open spec fn done_moves(a: UndoView) -> Seq<(Seq<char>, Seq<char>)> {
    match a {
        UndoView::Rename { from, to } => seq![(from, to)],
        UndoView::Move { pairs } => pairs,
        UndoView::Trash { .. } => seq![],
    }
}

/// The moves that undo an action, in order: each recorded move backwards.
/// A trash is not undone here.
pub open spec fn undo_moves(a: UndoView) -> Seq<(Seq<char>, Seq<char>)> {
    done_moves(a).map_values(|p: (Seq<char>, Seq<char>)| (p.1, p.0))
}

/// The renames to perform to undo an action (see [`undo_moves`]).
pub fn undo_plan(a: &UndoAction) -> (r: Vec<(String, String)>)
    ensures
        r@.map_values(|p: (String, String)| pair_view(p)) == undo_moves(a@),
{
    let mut out: Vec<(String, String)> = Vec::new();
    match a {
        UndoAction::Rename { from, to } => {
            out.push((to.clone(), from.clone()));
            assert(out@.map_values(|p: (String, String)| pair_view(p)) =~= undo_moves(a@));
        },
        UndoAction::Move { pairs } => {
            let ghost ps = pairs@.map_values(|p: (String, String)| pair_view(p));
            let mut i: usize = 0;
            while i < pairs.len()
                invariant
                    i <= pairs@.len(),
                    ps == pairs@.map_values(|p: (String, String)| pair_view(p)),
                    out@.len() == i,
                    forall|k: int|
                        0 <= k < i ==> #[trigger] pair_view(out@[k]) == (ps[k].1, ps[k].0),
                decreases pairs@.len() - i,
            {
                out.push((pairs[i].1.clone(), pairs[i].0.clone()));
                i += 1;
            }
            assert(out@.map_values(|p: (String, String)| pair_view(p)) =~= undo_moves(a@));
        },
        UndoAction::Trash { .. } => {
            assert(out@.map_values(|p: (String, String)| pair_view(p)) =~= undo_moves(a@));
        },
    }
    out
}

/// A rename on a file system that maps paths to files: the file at `from`,
/// if any, moves to `to`.
pub open spec fn rename_fs(fs: Map<Seq<char>, nat>, from: Seq<char>, to: Seq<char>) -> Map<Seq<char>, nat> {
    if fs.contains_key(from) {
        fs.remove(from).insert(to, fs[from])
    } else {
        fs
    }
}

/// The renames done one after the other.
pub open spec fn apply_moves(fs: Map<Seq<char>, nat>, ms: Seq<(Seq<char>, Seq<char>)>) -> Map<Seq<char>, nat>
    decreases ms.len(),
{
    if ms.len() == 0 {
        fs
    } else {
        apply_moves(rename_fs(fs, ms[0].0, ms[0].1), ms.drop_first())
    }
}

/// The paths of the moves: every source and destination.
pub open spec fn move_paths(ms: Seq<(Seq<char>, Seq<char>)>) -> Seq<Seq<char>> {
    Seq::new(2 * ms.len(), |i: int| if i % 2 == 0 { ms[i / 2].0 } else { ms[i / 2].1 })
}

/// No two moves touch the same path, and no move stays in place.
pub open spec fn disjoint_moves(ms: Seq<(Seq<char>, Seq<char>)>) -> bool {
    move_paths(ms).no_duplicates()
}

/// Every source is in the file system and no destination is.
pub open spec fn moves_fit(fs: Map<Seq<char>, nat>, ms: Seq<(Seq<char>, Seq<char>)>) -> bool {
    forall|i: int|
        0 <= i < ms.len() ==> fs.contains_key(#[trigger] ms[i].0) && !fs.contains_key(ms[i].1)
}

proof fn lemma_disjoint_parts(ms: Seq<(Seq<char>, Seq<char>)>)
    requires
        disjoint_moves(ms),
        ms.len() > 0,
    ensures
        disjoint_moves(ms.drop_first()),
        ms[0].0 != ms[0].1,
        forall|i: int|
            0 <= i < ms.drop_first().len() ==> {
                let m = #[trigger] ms.drop_first()[i];
                &&& m.0 != ms[0].0
                &&& m.0 != ms[0].1
                &&& m.1 != ms[0].0
                &&& m.1 != ms[0].1
            },
{
    let all = move_paths(ms);
    let rest = move_paths(ms.drop_first());
    assert forall|i: int, j: int| 0 <= i < rest.len() && 0 <= j < rest.len() && i != j implies rest[i]
        != rest[j] by {
        assert(rest[i] == all[i + 2]);
        assert(rest[j] == all[j + 2]);
    }
    assert(all[0] == ms[0].0);
    assert(all[1] == ms[0].1);
    assert forall|i: int| 0 <= i < ms.drop_first().len() implies {
        let m = #[trigger] ms.drop_first()[i];
        &&& m.0 != ms[0].0
        &&& m.0 != ms[0].1
        &&& m.1 != ms[0].0
        &&& m.1 != ms[0].1
    } by {
        assert(all[2 * i + 2] == ms.drop_first()[i].0);
        assert(all[2 * i + 3] == ms.drop_first()[i].1);
    }
}

/// A rename commutes with renames that touch other paths.
proof fn lemma_rename_commutes(
    fs: Map<Seq<char>, nat>,
    from: Seq<char>,
    to: Seq<char>,
    ms: Seq<(Seq<char>, Seq<char>)>,
)
    requires
        forall|i: int|
            0 <= i < ms.len() ==> {
                let m = #[trigger] ms[i];
                &&& m.0 != from
                &&& m.0 != to
                &&& m.1 != from
                &&& m.1 != to
            },
    ensures
        rename_fs(apply_moves(fs, ms), from, to) == apply_moves(rename_fs(fs, from, to), ms),
    decreases ms.len(),
{
    if ms.len() > 0 {
        let (s, d) = ms[0];
        let rest = ms.drop_first();
        assert forall|i: int| 0 <= i < rest.len() implies {
            let m = #[trigger] rest[i];
            &&& m.0 != from
            &&& m.0 != to
            &&& m.1 != from
            &&& m.1 != to
        } by {
            assert(rest[i] == ms[i + 1]);
        }
        assert(ms[0].0 != from && ms[0].0 != to && ms[0].1 != from && ms[0].1 != to);
        lemma_rename_commutes(rename_fs(fs, s, d), from, to, rest);
        assert(rename_fs(rename_fs(fs, s, d), from, to) =~= rename_fs(rename_fs(fs, from, to), s, d));
    }
}

/// The renames keep every other path as it was, and the ones that fit
/// still fit after the first is done.
proof fn lemma_moves_fit_rest(fs: Map<Seq<char>, nat>, ms: Seq<(Seq<char>, Seq<char>)>)
    requires
        disjoint_moves(ms),
        moves_fit(fs, ms),
        ms.len() > 0,
    ensures
        moves_fit(rename_fs(fs, ms[0].0, ms[0].1), ms.drop_first()),
{
    lemma_disjoint_parts(ms);
    let fs1 = rename_fs(fs, ms[0].0, ms[0].1);
    assert forall|i: int| 0 <= i < ms.drop_first().len() implies fs1.contains_key(
        #[trigger] ms.drop_first()[i].0,
    ) && !fs1.contains_key(ms.drop_first()[i].1) by {
        assert(ms.drop_first()[i] == ms[i + 1]);
    }
}

/// The moves undone in turn, after the moves were done: every file is back.
proof fn lemma_moves_undone(fs: Map<Seq<char>, nat>, ms: Seq<(Seq<char>, Seq<char>)>)
    requires
        disjoint_moves(ms),
        moves_fit(fs, ms),
    ensures
        apply_moves(
            apply_moves(fs, ms),
            ms.map_values(|p: (Seq<char>, Seq<char>)| (p.1, p.0)),
        ) == fs,
    decreases ms.len(),
{
    let back = ms.map_values(|p: (Seq<char>, Seq<char>)| (p.1, p.0));
    if ms.len() == 0 {
        assert(back.len() == 0);
    } else {
        let (s, d) = ms[0];
        let rest = ms.drop_first();
        let rest_back = rest.map_values(|p: (Seq<char>, Seq<char>)| (p.1, p.0));
        lemma_disjoint_parts(ms);
        lemma_moves_fit_rest(fs, ms);
        assert(back.drop_first() =~= rest_back);
        assert(back[0] == (d, s));
        let fs1 = rename_fs(fs, s, d);
        let fwd = apply_moves(fs1, rest);
        assert(apply_moves(fs, ms) == fwd);
        lemma_rename_commutes(fs1, d, s, rest);
        assert(rename_fs(fwd, d, s) == apply_moves(rename_fs(fs1, d, s), rest));
        assert(rename_fs(fs1, d, s) =~= fs);
        assert(apply_moves(fwd, back) == apply_moves(rename_fs(fwd, d, s), rest_back));
        lemma_moves_undone(fs, rest);
    }
}

/// Undoing a recorded rename or move puts every file back where it was,
/// when the recorded moves touch distinct paths, every source existed and
/// no destination did.
pub proof fn lemma_undo_restores(fs: Map<Seq<char>, nat>, a: UndoView)
    requires
        disjoint_moves(done_moves(a)),
        moves_fit(fs, done_moves(a)),
    ensures
        apply_moves(apply_moves(fs, done_moves(a)), undo_moves(a)) == fs,
{
    lemma_moves_undone(fs, done_moves(a));
}

/// How many of the planned renames failed (`Some` holds the failure's
/// text).
pub open spec fn failures(outcomes: Seq<Option<String>>) -> nat
    decreases outcomes.len(),
{
    if outcomes.len() == 0 {
        0
    } else {
        failures(outcomes.drop_last()) + if outcomes.last() is Some {
            1nat
        } else {
            0nat
        }
    }
}

proof fn lemma_failures_bound(outcomes: Seq<Option<String>>)
    ensures
        failures(outcomes) <= outcomes.len(),
    decreases outcomes.len(),
{
    if outcomes.len() > 0 {
        lemma_failures_bound(outcomes.drop_last());
    }
}

/// What undoing `a` says, and whether `a` goes back on the stack, given
/// the outcome of each rename of [`undo_plan`], in order.
pub open spec fn undo_report_spec(a: UndoView, outcomes: Seq<Option<String>>) -> (Seq<char>, bool) {
    match a {
        UndoView::Rename { .. } => match outcomes[0] {
            None => ("Undid rename"@, false),
            Some(e) => ("Undo rename failed: "@ + e@, true),
        },
        UndoView::Move { .. } => {
            let fail = failures(outcomes);
            (undo_move_spec((outcomes.len() - fail) as nat, fail), false)
        },
        UndoView::Trash { count } => (
            "Trash can't be undone here — press ⌘⇧Z in Finder ("@ + counted(count, "item"@) + ")"@,
            false,
        ),
    }
}

/// The message after undoing `a` and whether it goes back on the stack (a
/// rename that could not be undone does), from the outcome of each rename
/// of [`undo_plan`] (see [`undo_report_spec`]).
pub fn undo_report(a: &UndoAction, outcomes: &Vec<Option<String>>) -> (r: (String, bool))
    requires
        outcomes@.len() == undo_moves(a@).len(),
    ensures
        (r.0@, r.1) == undo_report_spec(a@, outcomes@),
{
    match a {
        UndoAction::Rename { .. } => {
            assert(undo_moves(a@).len() == 1);
            match &outcomes[0] {
                None => ("Undid rename".to_string(), false),
                Some(e) => {
                    let mut s = "Undo rename failed: ".to_string();
                    push_str(&mut s, e.as_str());
                    (s, true)
                },
            }
        },
        UndoAction::Move { .. } => {
            let mut fail: u64 = 0;
            let mut i: usize = 0;
            while i < outcomes.len()
                invariant
                    i <= outcomes@.len(),
                    fail == failures(outcomes@.take(i as int)),
                    fail <= i,
                decreases outcomes@.len() - i,
            {
                assert(outcomes@.take(i + 1).drop_last() =~= outcomes@.take(i as int));
                proof {
                    lemma_failures_bound(outcomes@.take(i as int));
                }
                if outcomes[i].is_some() {
                    fail = fail + 1;
                }
                i += 1;
            }
            assert(outcomes@.take(outcomes@.len() as int) =~= outcomes@);
            let ok = (outcomes.len() as u64) - fail;
            (undo_move_message(ok, fail), false)
        },
        UndoAction::Trash { count } => (undo_trash_message(*count as u64), false),
    }
}

/// Takes the newest action off the stack to undo it; none when the stack
/// is empty (the caller says there is nothing to undo).
pub fn take_undo(stack: &mut Vec<UndoAction>) -> (r: Option<UndoAction>)
    ensures
        match r {
            Some(a) => old(stack)@.len() > 0 && a@ == stack_view(old(stack)@).last()
                && stack_view(final(stack)@) == stack_view(old(stack)@).drop_last(),
            None => old(stack)@.len() == 0 && final(stack)@ == old(stack)@,
        },
{
    let ghost before = stack_view(stack@);
    let r = stack.pop();
    proof {
        if r is Some {
            assert(stack_view(stack@) =~= before.drop_last());
        }
    }
    r
}

/// The stack after an undo of `a` with these rename outcomes: `a` goes back
/// on top when [`undo_report_spec`] says so.
pub open spec fn stack_after_undo(s: Seq<UndoView>, a: UndoView, outcomes: Seq<Option<String>>) -> Seq<
    UndoView,
> {
    if undo_report_spec(a, outcomes).1 {
        s.push(a)
    } else {
        s
    }
}

/// Finishes undoing `a`, taken off `stack` by [`take_undo`]: the message to
/// show, and `a` put back on the stack when its rename could not be undone
/// (see [`undo_report`]).
pub fn finish_undo(stack: &mut Vec<UndoAction>, a: UndoAction, outcomes: &Vec<Option<String>>) -> (msg:
    String)
    requires
        outcomes@.len() == undo_moves(a@).len(),
    ensures
        msg@ == undo_report_spec(a@, outcomes@).0,
        stack_view(final(stack)@) == stack_after_undo(stack_view(old(stack)@), a@, outcomes@),
{
    let (msg, keep) = undo_report(&a, outcomes);
    if keep {
        let ghost av = a@;
        stack.push(a);
        assert(stack_view(stack@) =~= stack_view(old(stack)@).push(av));
    }
    msg
}

/// Undoing the newest action of a stack `s` then `a`: taking `a` off
/// leaves `s`, which the undo file then stores and gives back when `s`
/// holds at most [`UNDO_CAP`] storable actions. When every rename of the
/// undo goes through, `a` is gone from the stack and every file is back
/// where it was, provided the recorded moves touch distinct paths, every
/// source existed and no destination did. When a rename's undo fails, the
/// rename goes back on top of the stack.
pub proof fn lemma_undo_law(
    fs: Map<Seq<char>, nat>,
    s: Seq<UndoView>,
    a: UndoView,
    outcomes: Seq<Option<String>>,
)
    requires
        forall|i: int| 0 <= i < s.len() ==> savable_action(#[trigger] s[i]),
        s.len() <= UNDO_CAP,
        outcomes.len() == undo_moves(a).len(),
        disjoint_moves(done_moves(a)),
        moves_fit(fs, done_moves(a)),
    ensures
        s.push(a).drop_last() == s,
        s.push(a).last() == a,
        parse_undo_spec(undo_body_spec(s)) == s,
        (forall|i: int| 0 <= i < outcomes.len() ==> #[trigger] outcomes[i] is None) ==> stack_after_undo(
            s,
            a,
            outcomes,
        ) == s,
        apply_moves(apply_moves(fs, done_moves(a)), undo_moves(a)) == fs,
        (a is Rename && outcomes[0] is Some) ==> stack_after_undo(s, a, outcomes) == s.push(a),
{
    assert(s.push(a).drop_last() =~= s);
    lemma_undo_roundtrip(s);
    lemma_undo_restores(fs, a);
    if a is Rename {
        assert(undo_moves(a).len() == 1);
    }
}

/// Pushing a storable action on a stack of at most [`UNDO_CAP`] storable
/// actions keeps the newest [`UNDO_CAP`], the new one last, and the undo
/// file written from the result gives it back whole.
pub proof fn lemma_push_undo_persists(s: Seq<UndoView>, a: UndoView)
    requires
        s.len() <= UNDO_CAP,
        forall|i: int| 0 <= i < s.len() ==> savable_action(#[trigger] s[i]),
        savable_action(a),
    ensures
        ({
            let t = if s.len() + 1 > UNDO_CAP {
                s.push(a).drop_first()
            } else {
                s.push(a)
            };
            &&& t.len() <= UNDO_CAP
            &&& t.last() == a
            &&& t.drop_last() == (if s.len() + 1 > UNDO_CAP {
                s.drop_first()
            } else {
                s
            })
            &&& parse_undo_spec(undo_body_spec(t)) == t
        }),
{
    let t = if s.len() + 1 > UNDO_CAP {
        s.push(a).drop_first()
    } else {
        s.push(a)
    };
    if s.len() + 1 > UNDO_CAP {
        assert(t.drop_last() =~= s.drop_first());
    } else {
        assert(t.drop_last() =~= s);
    }
    assert forall|i: int| 0 <= i < t.len() implies savable_action(#[trigger] t[i]) by {
        if s.len() + 1 > UNDO_CAP {
            if i < t.len() - 1 {
                assert(t[i] == s[i + 1]);
            }
        } else if i < s.len() {
            assert(t[i] == s[i]);
        }
    }
    lemma_undo_roundtrip(t);
}

} // verus!
