use vstd::prelude::*;
use crate::text::{
    all_white, lemma_first_word_white_suffix, lemma_line_end_bound, lemma_line_end_extend,
    lemma_line_end_through, lemma_skip_white_prefix, lemma_trim_white_suffix, line_end, chars_of, lemma_lines_concat, lemma_trim_padded, line_end_from, lines,
    skip_white_from, split_first_word, strip_cr, trim, trim_end_to, word_end, is_white_space,
    lemma_one_line, lemma_skip_all_white, lemma_split_first_word_exact, lemma_trim_end_keeps_first, no_white,
};

verus! {

/// Abjad symbolic opcode set: the letters A through H name the eight
/// resonance instructions.
#[derive(Debug, Clone, Copy, PartialEq, Eq, Structural)]
pub enum AbjadOp {
    Load,
    Store,
    Compare,
    Branch,
    Enter,
    Freeze,
    Signal,
    Halt,
}

/// The mnemonic of an instruction, as written in the ISA table.
pub open spec fn mnemonic_of(op: AbjadOp) -> Seq<char> {
    match op {
        AbjadOp::Load => seq!['L', 'O', 'A', 'D'],
        AbjadOp::Store => seq!['S', 'T', 'O', 'R', 'E'],
        AbjadOp::Compare => seq!['C', 'O', 'M', 'P', 'A', 'R', 'E'],
        AbjadOp::Branch => seq!['B', 'R', 'A', 'N', 'C', 'H'],
        AbjadOp::Enter => seq!['E', 'N', 'T', 'E', 'R'],
        AbjadOp::Freeze => seq!['F', 'R', 'E', 'E', 'Z', 'E'],
        AbjadOp::Signal => seq!['S', 'I', 'G', 'N', 'A', 'L'],
        AbjadOp::Halt => seq!['H', 'A', 'L', 'T'],
    }
}

/// The symbol letter of each instruction, as written in the ISA table.
pub open spec fn symbol_of(op: AbjadOp) -> char {
    match op {
        AbjadOp::Load => 'A',
        AbjadOp::Store => 'B',
        AbjadOp::Compare => 'C',
        AbjadOp::Branch => 'D',
        AbjadOp::Enter => 'E',
        AbjadOp::Freeze => 'F',
        AbjadOp::Signal => 'G',
        AbjadOp::Halt => 'H',
    }
}

impl AbjadOp {
    /// The mnemonic of this instruction.
    pub fn mnemonic(&self) -> (res: &'static str)
        ensures
            res@ == mnemonic_of(*self),
    {
        match self {
            AbjadOp::Load => {
                proof { reveal_strlit("LOAD"); }
                "LOAD"
            },
            AbjadOp::Store => {
                proof { reveal_strlit("STORE"); }
                "STORE"
            },
            AbjadOp::Compare => {
                proof { reveal_strlit("COMPARE"); }
                "COMPARE"
            },
            AbjadOp::Branch => {
                proof { reveal_strlit("BRANCH"); }
                "BRANCH"
            },
            AbjadOp::Enter => {
                proof { reveal_strlit("ENTER"); }
                "ENTER"
            },
            AbjadOp::Freeze => {
                proof { reveal_strlit("FREEZE"); }
                "FREEZE"
            },
            AbjadOp::Signal => {
                proof { reveal_strlit("SIGNAL"); }
                "SIGNAL"
            },
            AbjadOp::Halt => {
                proof { reveal_strlit("HALT"); }
                "HALT"
            },
        }
    }
}

/// What `str::to_uppercase` returns for a string: its full Unicode
/// uppercase mapping.
pub uninterp spec fn unicode_uppercase(s: Seq<char>) -> Seq<char>;

/// The ASCII uppercase of each character, other characters unchanged.
pub open spec fn ascii_uppercase(s: Seq<char>) -> Seq<char> {
    s.map_values(|c: char| if 'a' <= c <= 'z' { ((c as u32) - 32) as char } else { c })
}

/// Calls `str::to_uppercase`. Its result is the named Unicode uppercase
/// mapping of the argument; on a string of ASCII characters only, it maps
/// each character to its ASCII uppercase (the Unicode mapping of `a`..`z` is
/// `A`..`Z`, and other ASCII characters have none).
#[verifier::external_body]
fn to_uppercase(s: &str) -> (res: String)
    ensures
        res@ == unicode_uppercase(s@),
        vstd::utf8::is_ascii_chars(s@) ==> res@ == ascii_uppercase(s@),
{
    s.to_uppercase()
}

/// The instruction that an uppercase token names: its symbol letter or its
/// mnemonic.
pub open spec fn word_op(w: Seq<char>) -> Option<AbjadOp> {
    if w == seq![symbol_of(AbjadOp::Load)] || w == mnemonic_of(AbjadOp::Load) {
        Some(AbjadOp::Load)
    } else if w == seq![symbol_of(AbjadOp::Store)] || w == mnemonic_of(AbjadOp::Store) {
        Some(AbjadOp::Store)
    } else if w == seq![symbol_of(AbjadOp::Compare)] || w == mnemonic_of(AbjadOp::Compare) {
        Some(AbjadOp::Compare)
    } else if w == seq![symbol_of(AbjadOp::Branch)] || w == mnemonic_of(AbjadOp::Branch) {
        Some(AbjadOp::Branch)
    } else if w == seq![symbol_of(AbjadOp::Enter)] || w == mnemonic_of(AbjadOp::Enter) {
        Some(AbjadOp::Enter)
    } else if w == seq![symbol_of(AbjadOp::Freeze)] || w == mnemonic_of(AbjadOp::Freeze) {
        Some(AbjadOp::Freeze)
    } else if w == seq![symbol_of(AbjadOp::Signal)] || w == mnemonic_of(AbjadOp::Signal) {
        Some(AbjadOp::Signal)
    } else if w == seq![symbol_of(AbjadOp::Halt)] || w == mnemonic_of(AbjadOp::Halt) {
        Some(AbjadOp::Halt)
    } else {
        None
    }
}

/// The instruction that a source token names: the token trimmed, mapped to
/// uppercase and looked up.
pub open spec fn token_op(token: Seq<char>) -> Option<AbjadOp> {
    word_op(unicode_uppercase(trim(token)))
}

fn chars_equal(a: &Vec<char>, b: &[char]) -> (res: bool)
    ensures
        res == (a@ == b@),
{
    if a.len() != b.len() {
        return false;
    }
    let mut i: usize = 0;
    while i < a.len()
        invariant
            a@.len() == b@.len(),
            i <= a.len(),
            forall|j: int| 0 <= j < i ==> a@[j] == b@[j],
        decreases a.len() - i,
    {
        if a[i] != b[i] {
            return false;
        }
        i = i + 1;
    }
    assert(a@ =~= b@);
    true
}

/// Looks up an uppercase token: its symbol letter or its mnemonic.
pub fn op_from_word(word: &str) -> (res: Option<AbjadOp>)
    ensures
        res == word_op(word@),
{
    let w = chars_of(word);
    if is_letter(&w, 'A') || chars_equal(&w, &['L', 'O', 'A', 'D']) {
        Some(AbjadOp::Load)
    } else if is_letter(&w, 'B') || chars_equal(&w, &['S', 'T', 'O', 'R', 'E']) {
        Some(AbjadOp::Store)
    } else if is_letter(&w, 'C') || chars_equal(&w, &['C', 'O', 'M', 'P', 'A', 'R', 'E']) {
        Some(AbjadOp::Compare)
    } else if is_letter(&w, 'D') || chars_equal(&w, &['B', 'R', 'A', 'N', 'C', 'H']) {
        Some(AbjadOp::Branch)
    } else if is_letter(&w, 'E') || chars_equal(&w, &['E', 'N', 'T', 'E', 'R']) {
        Some(AbjadOp::Enter)
    } else if is_letter(&w, 'F') || chars_equal(&w, &['F', 'R', 'E', 'E', 'Z', 'E']) {
        Some(AbjadOp::Freeze)
    } else if is_letter(&w, 'G') || chars_equal(&w, &['S', 'I', 'G', 'N', 'A', 'L']) {
        Some(AbjadOp::Signal)
    } else if is_letter(&w, 'H') || chars_equal(&w, &['H', 'A', 'L', 'T']) {
        Some(AbjadOp::Halt)
    } else {
        None
    }
}

fn is_letter(w: &Vec<char>, c: char) -> (res: bool)
    ensures
        res == (w@ == seq![c]),
{
    let r = w.len() == 1 && w[0] == c;
    assert(r ==> w@ =~= seq![c]);
    r
}

/// Parses a single token of a `.rasm` source: surrounding white space is
/// ignored and case is folded to upper; the token names an instruction by
/// its symbol letter (`A`..`H`) or its mnemonic.
pub fn parse_token(token: &str) -> (res: Option<AbjadOp>)
    ensures
        res == token_op(token@),
        vstd::utf8::is_ascii_chars(trim(token@)) ==> res == word_op(
            ascii_uppercase(trim(token@)),
        ),
{
    let v = chars_of(token);
    let n = v.len();
    let a = skip_white_from(&v, 0, n);
    let b = trim_end_to(&v, a, n);
    assert(v@.subrange(0, n as int) =~= v@);
    let trimmed = token.substring_char(a, b);
    let upper = to_uppercase(trimmed);
    op_from_word(upper.as_str())
}

/// A parsed source line: its instruction and the optional operand label.
pub type Entry = (AbjadOp, Option<String>);

/// The model of a parsed source line.
pub type EntryView = (AbjadOp, Option<Seq<char>>);

/// The model of a parsed line: the operand taken as its characters.
pub open spec fn entry_view(e: Entry) -> EntryView {
    (e.0, match e.1 {
        Some(s) => Some(s@),
        None => None,
    })
}

/// The instruction that a source token names, read either through the
/// Unicode uppercase mapping (`token_op`) or, with `fold_ascii` set and a
/// trimmed token of ASCII characters only, through ASCII uppercase.
/// `parse_token` returns both readings (see its contract).
pub open spec fn read_token(token: Seq<char>, fold_ascii: bool) -> Option<AbjadOp> {
    if fold_ascii && vstd::utf8::is_ascii_chars(trim(token)) {
        word_op(ascii_uppercase(trim(token)))
    } else {
        token_op(token)
    }
}

/// What one source line contributes: nothing for a blank line or a comment
/// (first non-blank character `;`) or a line whose first word names no
/// instruction; else the instruction and the second word as operand. The
/// first word is read by `read_token` with `fold_ascii`.
pub open spec fn parse_line(l: Seq<char>, fold_ascii: bool) -> Option<EntryView> {
    let t = trim(l);
    if t.len() == 0 || t[0] == ';' {
        None
    } else {
        match split_first_word(l) {
            None => None,
            Some((w, rest)) => match read_token(w, fold_ascii) {
                None => None,
                Some(op) => Some(
                    (
                        op,
                        match split_first_word(rest) {
                            Some((operand, _)) => Some(operand),
                            None => None,
                        },
                    ),
                ),
            },
        }
    }
}

/// The entries of a sequence of lines, in order.
pub open spec fn parse_lines(ls: Seq<Seq<char>>, fold_ascii: bool) -> Seq<EntryView>
    decreases ls.len(),
{
    if ls.len() == 0 {
        seq![]
    } else {
        let here = match parse_line(ls[0], fold_ascii) {
            Some(e) => seq![e],
            None => seq![],
        };
        here + parse_lines(ls.drop_first(), fold_ascii)
    }
}

/// The instruction stream of a `.rasm` source, its tokens read by
/// `read_token` with `fold_ascii`.
pub open spec fn program_by(src: Seq<char>, fold_ascii: bool) -> Seq<EntryView> {
    parse_lines(lines(src), fold_ascii)
}

/// The instruction stream of a `.rasm` source.
pub open spec fn program_of(src: Seq<char>) -> Seq<EntryView> {
    program_by(src, false)
}

/// Parses the line `v[lo..hi]` of `src`.
fn parse_line_at(src: &str, v: &Vec<char>, lo: usize, hi: usize) -> (res: Option<Entry>)
    requires
        v@ == src@,
        lo <= hi <= v@.len(),
    ensures
        forall|fold_ascii: bool|
            #![trigger parse_line(v@.subrange(lo as int, hi as int), fold_ascii)]
            match res {
                Some(e) => parse_line(v@.subrange(lo as int, hi as int), fold_ascii) == Some(
                    entry_view(e),
                ),
                None => parse_line(v@.subrange(lo as int, hi as int), fold_ascii) is None,
            },
{
    let ghost l = v@.subrange(lo as int, hi as int);
    let a = skip_white_from(v, lo, hi);
    let b = trim_end_to(v, a, hi);
    assert(trim(l) == v@.subrange(a as int, b as int));
    if a == b || v[a] == ';' {
        return None;
    }
    let e1 = word_end(v, a, hi);
    assert(v@.subrange(a as int, hi as int).take(e1 - a) =~= v@.subrange(a as int, e1 as int));
    assert(v@.subrange(a as int, hi as int).skip(e1 - a) =~= v@.subrange(e1 as int, hi as int));
    let token = src.substring_char(a, e1);
    match parse_token(token) {
        None => None,
        Some(op) => {
            let a2 = skip_white_from(v, e1, hi);
            if a2 < hi {
                let e2 = word_end(v, a2, hi);
                assert(v@.subrange(a2 as int, hi as int).take(e2 - a2) =~= v@.subrange(
                    a2 as int,
                    e2 as int,
                ));
                let operand = src.substring_char(a2, e2).to_owned();
                Some((op, Some(operand)))
            } else {
                Some((op, None))
            }
        },
    }
}

/// Parses a full `.rasm` source string into an instruction stream. Lines
/// whose first non-blank character is `;` are comments; blank lines are
/// skipped; a line whose first word names no instruction is dropped; the
/// second word of a line, if any, is its operand.
pub fn parse_program(src: &str) -> (res: Vec<Entry>)
    ensures
        res@.map_values(|e: Entry| entry_view(e)) == program_of(src@),
        res@.map_values(|e: Entry| entry_view(e)) == program_by(src@, true),
{
    let v = chars_of(src);
    let n = v.len();
    let mut out: Vec<Entry> = Vec::new();
    let mut start: usize = 0;
    assert(v@.subrange(0, n as int) =~= v@);
    while start < n
        invariant
            v@ == src@,
            n == v@.len(),
            start <= n,
            forall|fold_ascii: bool|
                #![trigger program_by(src@, fold_ascii)]
                out@.map_values(|e: Entry| entry_view(e)) + program_by(
                    v@.subrange(start as int, n as int),
                    fold_ascii,
                ) == program_by(src@, fold_ascii),
        decreases n - start,
    {
        let ghost rest = v@.subrange(start as int, n as int);
        let ghost before = out@.map_values(|e: Entry| entry_view(e));
        let e = line_end_from(&v, start, n);
        let le = if e < n && e > start && v[e - 1] == '\r' {
            e - 1
        } else {
            e
        };
        let ghost line = v@.subrange(start as int, le as int);
        proof {
            if e < n {
                assert(strip_cr(rest.take(e - start)) =~= line);
                assert(rest.skip(e - start + 1) =~= v@.subrange(e + 1, n as int));
            } else {
                assert(line =~= rest);
            }
            let ls = lines(rest);
            assert(ls[0] == line);
        }
        let entry = parse_line_at(src, &v, start, le);
        match entry {
            Some(x) => {
                out.push(x);
                assert(out@.map_values(|e: Entry| entry_view(e)) =~= before.push(entry_view(x)));
            },
            None => {},
        }
        if e < n {
            proof {
                assert(lines(rest).drop_first() =~= lines(v@.subrange(e + 1, n as int)));
            }
            start = e + 1;
        } else {
            proof {
                assert(lines(rest).drop_first() =~= Seq::<Seq<char>>::empty());
                assert(v@.subrange(n as int, n as int) =~= Seq::<char>::empty());
            }
            start = n;
        }
        assert forall|fold_ascii: bool|
            out@.map_values(|e: Entry| entry_view(e)) + program_by(
                v@.subrange(start as int, n as int),
                fold_ascii,
            ) =~= #[trigger] program_by(src@, fold_ascii) by {
            let ghost ls = lines(rest);
            assert(program_by(rest, fold_ascii) == match parse_line(line, fold_ascii) {
                Some(x) => seq![x],
                None => Seq::<EntryView>::empty(),
            } + parse_lines(ls.drop_first(), fold_ascii));
            assert(program_by(src@, fold_ascii) == before + program_by(rest, fold_ascii));
        }
    }
    assert forall|fold_ascii: bool|
        program_by(v@.subrange(n as int, n as int), fold_ascii) =~= Seq::<EntryView>::empty() by {}
    assert(program_by(src@, false) =~= out@.map_values(|e: Entry| entry_view(e)));
    assert(program_by(src@, true) =~= out@.map_values(|e: Entry| entry_view(e)));
    out
}

/// The table read backwards: an instruction's symbol letter and its
/// mnemonic name it, and nothing else does.
pub proof fn lemma_word_op_names(op: AbjadOp, w: Seq<char>)
    ensures
        word_op(w) == Some(op) <==> (w == seq![symbol_of(op)] || w == mnemonic_of(op)),
{
    assert(mnemonic_of(AbjadOp::Load).len() == 4 && mnemonic_of(AbjadOp::Load)[0] == 'L');
    assert(mnemonic_of(AbjadOp::Store).len() == 5 && mnemonic_of(AbjadOp::Store)[0] == 'S');
    assert(mnemonic_of(AbjadOp::Compare).len() == 7 && mnemonic_of(AbjadOp::Compare)[0] == 'C');
    assert(mnemonic_of(AbjadOp::Branch).len() == 6 && mnemonic_of(AbjadOp::Branch)[0] == 'B');
    assert(mnemonic_of(AbjadOp::Enter).len() == 5 && mnemonic_of(AbjadOp::Enter)[0] == 'E');
    assert(mnemonic_of(AbjadOp::Freeze).len() == 6 && mnemonic_of(AbjadOp::Freeze)[0] == 'F');
    assert(mnemonic_of(AbjadOp::Signal).len() == 6 && mnemonic_of(AbjadOp::Signal)[0] == 'S');
    assert(mnemonic_of(AbjadOp::Halt).len() == 4 && mnemonic_of(AbjadOp::Halt)[0] == 'H');
    assert(seq![symbol_of(op)].len() == 1 && seq![symbol_of(op)][0] == symbol_of(op));
}

/// Every instruction's symbol letter and mnemonic, written in any mix of
/// ASCII case and surrounded by any white space, is a token that parses to
/// that instruction: trimmed, it is ASCII, and its uppercase names the
/// instruction (so `parse_token` returns it).
pub proof fn lemma_table_round_trip(op: AbjadOp, p: Seq<char>, w: Seq<char>, q: Seq<char>)
    requires
        all_white(p),
        all_white(q),
        ascii_uppercase(w) == seq![symbol_of(op)] || ascii_uppercase(w) == mnemonic_of(op),
    ensures
        vstd::utf8::is_ascii_chars(trim(p + w + q)),
        word_op(ascii_uppercase(trim(p + w + q))) == Some(op),
{
    let u = ascii_uppercase(w);
    assert(w.len() == u.len());
    assert forall|i: int| 0 <= i < w.len() implies '\0' <= #[trigger] w[i] <= '\u{7f}' && w[i]
        != ' ' by {
        assert(u[i] == (if 'a' <= w[i] <= 'z' { ((w[i] as u32) - 32) as char } else { w[i] }));
    }
    assert(w.len() > 0);
    assert(u[0] == (if 'a' <= w[0] <= 'z' { ((w[0] as u32) - 32) as char } else { w[0] }));
    let k = w.len() - 1;
    assert(u[k] == (if 'a' <= w[k] <= 'z' { ((w[k] as u32) - 32) as char } else { w[k] }));
    lemma_trim_padded(p, w, q);
    lemma_word_op_names(op, u);
}

proof fn lemma_parse_lines_concat(x: Seq<Seq<char>>, y: Seq<Seq<char>>, f: bool)
    ensures
        parse_lines(x + y, f) == parse_lines(x, f) + parse_lines(y, f),
    decreases x.len(),
{
    if x.len() == 0 {
        assert(x + y =~= y);
        assert(parse_lines(x, f) + parse_lines(y, f) =~= parse_lines(y, f));
    } else {
        assert((x + y)[0] == x[0]);
        assert((x + y).drop_first() =~= x.drop_first() + y);
        lemma_parse_lines_concat(x.drop_first(), y, f);
        let here = match parse_line(x[0], f) {
            Some(e) => seq![e],
            None => Seq::<EntryView>::empty(),
        };
        assert(parse_lines(x + y, f) =~= here + (parse_lines(x.drop_first(), f) + parse_lines(
            y,
            f,
        )));
        assert(parse_lines(x + y, f) =~= parse_lines(x, f) + parse_lines(y, f));
    }
}

/// Parsing is line by line: a source that ends with a line feed (or is
/// empty), followed by another, parses to the instructions of the first
/// then those of the second; no line affects how another is read.
pub proof fn lemma_program_concat(a: Seq<char>, b: Seq<char>)
    requires
        a.len() == 0 || a.last() == '\n',
    ensures
        forall|f: bool| #[trigger] program_by(a + b, f) == program_by(a, f) + program_by(b, f),
{
    lemma_lines_concat(a, b);
    assert forall|f: bool| #[trigger] program_by(a + b, f) == program_by(a, f) + program_by(b, f) by {
        lemma_parse_lines_concat(lines(a), lines(b), f);
    }
}

/// Surrounding white space never changes what a token names:
/// `parse_token` gives the same answer for a token and for it padded.
pub proof fn lemma_token_padding(p: Seq<char>, w: Seq<char>, q: Seq<char>)
    requires
        all_white(p),
        all_white(q),
    ensures
        trim(p + w + q) == trim(w),
        token_op(p + w + q) == token_op(w),
        forall|f: bool| #[trigger] read_token(p + w + q, f) == read_token(w, f),
{
    assert(p + w + q =~= p + (w + q));
    lemma_skip_white_prefix(p, w + q);
    lemma_trim_white_suffix(w, q);
}

/// Trailing white space never changes what a line contributes.
pub proof fn lemma_parse_line_white_suffix(l: Seq<char>, q: Seq<char>, f: bool)
    requires
        all_white(q),
    ensures
        parse_line(l + q, f) == parse_line(l, f),
{
    lemma_trim_white_suffix(l, q);
    lemma_first_word_white_suffix(l, q);
    if let Some((w, rest)) = split_first_word(l) {
        lemma_first_word_white_suffix(rest, q);
    }
}

/// A line feed at the end of a source adds no instruction: with the
/// splitting law, parsing is local to lines wherever the source is cut
/// after a line feed.
pub proof fn lemma_trailing_line_feed(a: Seq<char>)
    ensures
        forall|f: bool| #[trigger] program_by(a + seq!['\n'], f) == program_by(a, f),
    decreases a.len(),
{
    let nl = seq!['\n'];
    if a.len() == 0 {
        assert(a + nl =~= nl);
        assert(nl.take(0) =~= Seq::<char>::empty());
        assert(nl.skip(1) =~= Seq::<char>::empty());
        assert(line_end(nl) == 0);
        assert(strip_cr(Seq::<char>::empty()) =~= Seq::<char>::empty());
        assert(lines(Seq::<char>::empty()) =~= Seq::<Seq<char>>::empty());
        assert(lines(nl) =~= seq![Seq::<char>::empty()]);
        assert(trim(Seq::<char>::empty()) =~= Seq::<char>::empty());
        assert forall|f: bool| #[trigger] program_by(a + nl, f) == program_by(a, f) by {
            assert(parse_lines(seq![Seq::<char>::empty()], f).len() == 0) by {
                let one = seq![Seq::<char>::empty()];
                assert(one[0] == Seq::<char>::empty());
                assert(trim(one[0]).len() == 0);
                assert(parse_line(one[0], f) is None);
                assert(one.drop_first() =~= Seq::<Seq<char>>::empty());
                assert(parse_lines(one.drop_first(), f).len() == 0);
            }
        }
    } else {
        lemma_line_end_bound(a);
        let e = line_end(a);
        if e < a.len() {
            lemma_line_end_extend(a, nl);
            let a2 = a.skip(e + 1 as int);
            assert((a + nl).take(e as int) =~= a.take(e as int));
            assert((a + nl).skip(e + 1 as int) =~= a2 + nl);
            lemma_trailing_line_feed(a2);
            let x = strip_cr(a.take(e as int));
            assert(lines(a + nl) == seq![x] + lines(a2 + nl));
            assert(lines(a) == seq![x] + lines(a2));
            assert forall|f: bool| #[trigger] program_by(a + nl, f) == program_by(a, f) by {
                lemma_parse_lines_concat(seq![x], lines(a2 + nl), f);
                lemma_parse_lines_concat(seq![x], lines(a2), f);
                assert(program_by(a2 + nl, f) == program_by(a2, f));
            }
        } else {
            lemma_line_end_through(a, nl);
            assert((a + nl).take(a.len() as int) =~= a);
            assert((a + nl).skip(a.len() + 1 as int) =~= Seq::<char>::empty());
            assert(lines(a + nl) == seq![strip_cr(a)] + lines(Seq::<char>::empty()));
            assert(lines(a + nl) =~= seq![strip_cr(a)]);
            assert(lines(a) == seq![a]);
            assert forall|f: bool| #[trigger] program_by(a + nl, f) == program_by(a, f) by {
                if a.last() == '\r' {
                    let cr = seq!['\r'];
                    assert(a =~= a.drop_last() + cr);
                    assert(all_white(cr));
                    lemma_parse_line_white_suffix(a.drop_last(), cr, f);
                }
                assert(seq![strip_cr(a)].drop_first() =~= Seq::<Seq<char>>::empty());
                assert(seq![a].drop_first() =~= Seq::<Seq<char>>::empty());
                assert(parse_line(strip_cr(a), f) == parse_line(a, f));
            }
        }
    }
}

/// A line parses to its instruction and its whole second word: a line
/// made of white space, a word naming an instruction, white space, an
/// operand word, and then nothing or anything that starts with white space,
/// gives that instruction with exactly that operand word, whatever its
/// length.
pub proof fn lemma_operand_whole_word(
    p0: Seq<char>,
    w: Seq<char>,
    p: Seq<char>,
    o: Seq<char>,
    q: Seq<char>,
    op: AbjadOp,
    f: bool,
)
    requires
        all_white(p0),
        w.len() > 0,
        no_white(w),
        w[0] != ';',
        read_token(w, f) == Some(op),
        all_white(p),
        p.len() > 0,
        o.len() > 0,
        no_white(o),
        q.len() == 0 || is_white_space(q[0]),
    ensures
        parse_line(p0 + w + p + o + q, f) == Some((op, Some(o))),
{
    let r = p + o + q;
    assert(p0 + w + p + o + q =~= p0 + w + r);
    assert(r[0] == p[0]);
    lemma_split_first_word_exact(p0, w, r);
    lemma_split_first_word_exact(p, o, q);
    assert((w + r)[0] == w[0]);
    lemma_trim_end_keeps_first(w + r);
}

/// A line whose only word names an instruction gives that instruction with
/// no operand.
pub proof fn lemma_lone_word(p0: Seq<char>, w: Seq<char>, q: Seq<char>, op: AbjadOp, f: bool)
    requires
        all_white(p0),
        w.len() > 0,
        no_white(w),
        w[0] != ';',
        read_token(w, f) == Some(op),
        all_white(q),
    ensures
        parse_line(p0 + w + q, f) == Some((op, None::<Seq<char>>)),
{
    if q.len() > 0 {
        assert(is_white_space(q[0]));
    }
    lemma_split_first_word_exact(p0, w, q);
    lemma_skip_all_white(q);
    assert((w + q)[0] == w[0]);
    lemma_trim_end_keeps_first(w + q);
}

/// A source of one line, with no line feed, holds what that line
/// contributes and nothing else.
pub proof fn lemma_single_line_program(l: Seq<char>, f: bool)
    requires
        l.len() > 0,
        forall|i: int| 0 <= i < l.len() ==> #[trigger] l[i] != '\n',
    ensures
        program_by(l, f) == match parse_line(l, f) {
            Some(e) => seq![e],
            None => Seq::<EntryView>::empty(),
        },
{
    lemma_one_line(l);
    let one = seq![l];
    assert(one[0] == l);
    assert(one.drop_first() =~= Seq::<Seq<char>>::empty());
    assert(parse_lines(one.drop_first(), f) =~= Seq::<EntryView>::empty());
    assert(program_by(l, f) =~= match parse_line(l, f) {
        Some(e) => seq![e],
        None => Seq::<EntryView>::empty(),
    });
}

} // verus!
