//! The assembler: Abjad operations to 4-bit opcodes, IR programs to
//! bytecode words, and the binary listing of a bytecode stream.
use vstd::prelude::*;
use crate::text::push_char;
use crate::abjad::AbjadOp;
use crate::ir::Instruction;

verus! {

/// The 4-bit binary opcode of each operation, as the ISA table gives it.
pub open spec fn opcode_of(op: AbjadOp) -> u8 {
    match op {
        AbjadOp::Load => 0b0001,
        AbjadOp::Store => 0b0010,
        AbjadOp::Compare => 0b0011,
        AbjadOp::Branch => 0b0100,
        AbjadOp::Enter => 0b0101,
        AbjadOp::Freeze => 0b0110,
        AbjadOp::Signal => 0b0111,
        AbjadOp::Halt => 0b1111,
    }
}

/// Encodes an operation into its 4-bit binary opcode.
pub fn encode(op: &AbjadOp) -> (res: u8)
    ensures
        res == opcode_of(*op),
{
    match op {
        AbjadOp::Load => 0b0001,
        AbjadOp::Store => 0b0010,
        AbjadOp::Compare => 0b0011,
        AbjadOp::Branch => 0b0100,
        AbjadOp::Enter => 0b0101,
        AbjadOp::Freeze => 0b0110,
        AbjadOp::Signal => 0b0111,
        AbjadOp::Halt => 0b1111,
    }
}

/// A compiled bytecode word: the opcode and a one-byte hash of the operand
/// (0 if none).
#[derive(Debug, Clone, Copy, PartialEq, Eq, Structural)]
pub struct ByteWord {
    pub opcode: u8,
    pub operand: u8,
}

/// The sum of a byte sequence.
pub open spec fn byte_sum(bytes: Seq<u8>) -> nat
    decreases bytes.len(),
{
    if bytes.len() == 0 {
        0
    } else {
        byte_sum(bytes.drop_last()) + bytes.last() as nat
    }
}

/// The operand hash: the sum of the UTF-8 bytes of the label modulo 256,
/// or 0 without a label.
pub open spec fn operand_hash(label: Option<Seq<char>>) -> u8 {
    match label {
        Some(s) => (byte_sum(vstd::utf8::encode_utf8(s)) % 256) as u8,
        None => 0,
    }
}

/// The model of an instruction's operand label.
pub open spec fn label_of(instr: Instruction) -> Option<Seq<char>> {
    match instr.operand {
        Some(s) => Some(s@),
        None => None,
    }
}

fn hash_label(label: &String) -> (res: u8)
    ensures
        res == operand_hash(Some(label@)),
{
    let bytes = label.as_str().as_bytes();
    let mut acc: u8 = 0;
    let mut i: usize = 0;
    while i < bytes.len()
        invariant
            bytes@ == vstd::utf8::encode_utf8(label@),
            i <= bytes@.len(),
            acc == byte_sum(bytes@.take(i as int)) % 256,
        decreases bytes.len() - i,
    {
        let b = bytes[i];
        assert(bytes@.take(i + 1).drop_last() =~= bytes@.take(i as int));
        acc = acc.wrapping_add(b);
        i = i + 1;
    }
    assert(bytes@.take(i as int) =~= bytes@);
    acc
}

/// Assembles an IR program into a bytecode stream, one word per
/// instruction.
pub fn assemble(program: &[Instruction]) -> (res: Vec<ByteWord>)
    ensures
        res@.len() == program@.len(),
        forall|i: int|
            0 <= i < res@.len() ==> #[trigger] res@[i] == (ByteWord {
                opcode: opcode_of(program@[i].op),
                operand: operand_hash(label_of(program@[i])),
            }),
{
    let mut out: Vec<ByteWord> = Vec::new();
    let mut i: usize = 0;
    while i < program.len()
        invariant
            i <= program@.len(),
            out@.len() == i,
            forall|j: int|
                0 <= j < i ==> #[trigger] out@[j] == (ByteWord {
                    opcode: opcode_of(program@[j].op),
                    operand: operand_hash(label_of(program@[j])),
                }),
        decreases program.len() - i,
    {
        let instr = &program[i];
        let operand = match &instr.operand {
            Some(label) => hash_label(label),
            None => 0,
        };
        out.push(ByteWord { opcode: encode(&instr.op), operand });
        i = i + 1;
    }
    out
}

/// The binary digits of `n`, most significant first, without leading zeros.
pub open spec fn binary_digits(n: nat) -> Seq<char>
    decreases n,
{
    if n < 2 {
        seq![if n == 0 { '0' } else { '1' }]
    } else {
        binary_digits(n / 2) + binary_digits(n % 2)
    }
}

/// `d` left-padded with zeros to at least `width` characters.
pub open spec fn zero_padded(d: Seq<char>, width: nat) -> Seq<char> {
    if d.len() < width {
        Seq::new((width - d.len()) as nat, |i: int| '0') + d
    } else {
        d
    }
}

/// An opcode written in binary, at least four digits wide (`{:04b}`).
pub open spec fn binary_word(n: u8) -> Seq<char> {
    zero_padded(binary_digits(n as nat), 4)
}

/// Words joined with single spaces.
pub open spec fn join_spaced(ws: Seq<Seq<char>>) -> Seq<char>
    decreases ws.len(),
{
    if ws.len() == 0 {
        seq![]
    } else if ws.len() == 1 {
        ws[0]
    } else {
        join_spaced(ws.drop_last()) + seq![' '] + ws.last()
    }
}

/// The binary listing of a bytecode stream: each opcode in binary, at least
/// four digits wide, separated by spaces.
pub open spec fn listing(code: Seq<ByteWord>) -> Seq<char> {
    join_spaced(code.map_values(|w: ByteWord| binary_word(w.opcode)))
}

fn push_binary(n: u8, out: &mut Vec<char>)
    ensures
        final(out)@ == old(out)@ + binary_digits(n as nat),
    decreases n,
{
    if n < 2 {
        out.push(if n == 0 { '0' } else { '1' });
    } else {
        let ghost before = out@;
        push_binary(n / 2, out);
        out.push(if n % 2 == 0 { '0' } else { '1' });
        assert(binary_digits((n % 2) as nat) == seq![if n % 2 == 0 { '0' } else { '1' }]);
        assert(out@ =~= before + binary_digits((n / 2) as nat) + binary_digits((n % 2) as nat));
    }
}

fn push_binary_word(n: u8, out: &mut String)
    ensures
        final(out)@ == old(out)@ + binary_word(n),
{
    let mut digits: Vec<char> = Vec::new();
    push_binary(n, &mut digits);
    assert(digits@ =~= binary_digits(n as nat));
    let ghost start = out@;
    let mut k: usize = digits.len();
    while k < 4
        invariant
            digits@.len() <= k <= 4 || (k == digits@.len() && k >= 4),
            out@ == start + Seq::new((k - digits@.len()) as nat, |i: int| '0'),
        decreases 4 - k,
    {
        push_char(out, '0');
        k = k + 1;
        assert(out@ =~= start + Seq::new((k - digits@.len()) as nat, |i: int| '0'));
    }
    let ghost padded = out@;
    let mut i: usize = 0;
    while i < digits.len()
        invariant
            i <= digits@.len(),
            out@ == padded + digits@.take(i as int),
        decreases digits.len() - i,
    {
        push_char(out, digits[i]);
        i = i + 1;
        assert(out@ =~= padded + digits@.take(i as int));
    }
    assert(digits@.take(i as int) =~= digits@);
    assert(out@ =~= start + binary_word(n));
}

/// Shows a bytecode stream as space-separated binary opcodes.
pub fn disassemble(bytecode: &[ByteWord]) -> (res: String)
    ensures
        res@ == listing(bytecode@),
{
    let ghost words = bytecode@.map_values(|w: ByteWord| binary_word(w.opcode));
    let mut out = String::new();
    let mut i: usize = 0;
    while i < bytecode.len()
        invariant
            i <= bytecode@.len(),
            words == bytecode@.map_values(|w: ByteWord| binary_word(w.opcode)),
            out@ == join_spaced(words.take(i as int)),
        decreases bytecode.len() - i,
    {
        assert(words.take(i + 1).drop_last() =~= words.take(i as int));
        if i > 0 {
            push_char(&mut out, ' ');
        }
        push_binary_word(bytecode[i].opcode, &mut out);
        i = i + 1;
        assert(out@ =~= join_spaced(words.take(i as int)));
    }
    assert(words.take(i as int) =~= words);
    out
}

/// Distinct operations have distinct opcodes, and every opcode fits in
/// four bits: the encoding loses nothing.
pub proof fn lemma_opcodes_distinct(a: AbjadOp, b: AbjadOp)
    ensures
        opcode_of(a) == opcode_of(b) ==> a == b,
        1 <= opcode_of(a) < 16,
{
}

/// The number that a string of binary digits spells.
pub open spec fn binary_value(s: Seq<char>) -> nat
    decreases s.len(),
{
    if s.len() == 0 {
        0
    } else {
        2 * binary_value(s.drop_last()) + if s.last() == '1' {
            1nat
        } else {
            0nat
        }
    }
}

proof fn lemma_binary_digits(n: nat)
    ensures
        binary_value(binary_digits(n)) == n,
        n < 2 ==> binary_digits(n).len() == 1,
        n < 4 ==> binary_digits(n).len() <= 2,
        n < 8 ==> binary_digits(n).len() <= 3,
        n < 16 ==> binary_digits(n).len() <= 4,
        binary_digits(n).len() >= 1,
    decreases n,
{
    if n >= 2 {
        lemma_binary_digits(n / 2);
        let x = binary_digits(n / 2);
        let y = binary_digits(n % 2);
        assert(binary_digits(n) == x + y);
        assert(y == seq![if n % 2 == 0 { '0' } else { '1' }]);
        assert((x + y).drop_last() =~= x);
        assert((x + y).last() == y[0]);
        assert(n == 2 * (n / 2) + n % 2);
        assert(binary_value(x + y) == 2 * binary_value(x) + if y[0] == '1' { 1nat } else { 0nat });
    } else {
        assert(binary_digits(n).drop_last() =~= Seq::<char>::empty());
        assert(binary_value(Seq::<char>::empty()) == 0);
        assert(binary_value(binary_digits(n)) == if binary_digits(n).last() == '1' { 1nat } else { 0nat });
    }
}

proof fn lemma_leading_zeros(k: nat, d: Seq<char>)
    ensures
        binary_value(Seq::new(k, |i: int| '0') + d) == binary_value(d),
    decreases d.len(), k,
{
    if d.len() == 0 {
        assert(Seq::new(k, |i: int| '0') + d =~= Seq::new(k, |i: int| '0'));
        if k > 0 {
            assert(Seq::new(k, |i: int| '0').drop_last() =~= Seq::new((k - 1) as nat, |i: int| '0'));
            lemma_leading_zeros((k - 1) as nat, d);
            assert(Seq::new((k - 1) as nat, |i: int| '0') + d =~= Seq::new((k - 1) as nat, |i: int| '0'));
        }
    } else {
        let z = Seq::new(k, |i: int| '0');
        assert((z + d).drop_last() =~= z + d.drop_last());
        lemma_leading_zeros(k, d.drop_last());
    }
}

/// The listing of an opcode reads back as the opcode, and an opcode of the
/// ISA table is listed in exactly four binary digits.
pub proof fn lemma_binary_word_reads_back(n: u8)
    ensures
        binary_value(binary_word(n)) == n,
        n < 16 ==> binary_word(n).len() == 4,
{
    lemma_binary_digits(n as nat);
    let d = binary_digits(n as nat);
    if d.len() < 4 {
        lemma_leading_zeros((4 - d.len()) as nat, d);
    }
}

proof fn lemma_byte_sum_concat(a: Seq<u8>, b: Seq<u8>)
    ensures
        byte_sum(a + b) == byte_sum(a) + byte_sum(b),
    decreases b.len(),
{
    if b.len() == 0 {
        assert(a + b =~= a);
    } else {
        assert((a + b).drop_last() =~= a + b.drop_last());
        assert((a + b).last() == b.last());
        lemma_byte_sum_concat(a, b.drop_last());
    }
}

proof fn lemma_encode_utf8_concat(a: Seq<char>, b: Seq<char>)
    ensures
        vstd::utf8::encode_utf8(a + b) == vstd::utf8::encode_utf8(a) + vstd::utf8::encode_utf8(b),
    decreases a.len(),
{
    if a.len() == 0 {
        assert(a + b =~= b);
        assert(vstd::utf8::encode_utf8(a) =~= Seq::<u8>::empty());
        assert(vstd::utf8::encode_utf8(a) + vstd::utf8::encode_utf8(b) =~= vstd::utf8::encode_utf8(b));
    } else {
        assert((a + b)[0] == a[0]);
        assert((a + b).drop_first() =~= a.drop_first() + b);
        lemma_encode_utf8_concat(a.drop_first(), b);
        assert(vstd::utf8::encode_utf8(a + b) =~= vstd::utf8::encode_scalar(a[0] as u32) + (
        vstd::utf8::encode_utf8(a.drop_first()) + vstd::utf8::encode_utf8(b)));
    }
}

/// The byte sum adds bytes as they are: it is additive over concatenation
/// and a single byte sums to itself.
pub proof fn lemma_byte_sum_adds(a: Seq<u8>, b: Seq<u8>, x: u8)
    ensures
        byte_sum(a + b) == byte_sum(a) + byte_sum(b),
        byte_sum(seq![x]) == x,
        byte_sum(Seq::<u8>::empty()) == 0,
{
    lemma_byte_sum_concat(a, b);
    let one = seq![x];
    assert(one.drop_last() =~= Seq::<u8>::empty());
    assert(one.last() == x);
    assert(byte_sum(one) == byte_sum(one.drop_last()) + x as nat);
}

/// The operand hash is the byte sum modulo 256 of the label's UTF-8 bytes,
/// each taken as it is: no label hashes to 0; the hash of two labels joined
/// is the sum of their hashes modulo 256; a single ASCII character hashes
/// to its own code, any other character to the sum of its UTF-8 encoding.
pub proof fn lemma_operand_hash_laws(s1: Seq<char>, s2: Seq<char>, c: char)
    ensures
        operand_hash(None) == 0,
        operand_hash(Some(s1 + s2)) == (operand_hash(Some(s1)) + operand_hash(Some(s2))) % 256,
        (c as u32) < 128 ==> operand_hash(Some(seq![c])) == c as u32,
        operand_hash(Some(seq![c])) == byte_sum(vstd::utf8::encode_scalar(c as u32)) % 256,
{
    lemma_encode_utf8_concat(s1, s2);
    let e1 = vstd::utf8::encode_utf8(s1);
    let e2 = vstd::utf8::encode_utf8(s2);
    lemma_byte_sum_concat(e1, e2);
    let one = seq![c];
    assert(one[0] == c);
    assert(one.drop_first() =~= Seq::<char>::empty());
    assert(vstd::utf8::encode_utf8(one.drop_first()) =~= Seq::<u8>::empty());
    assert(vstd::utf8::encode_utf8(one) =~= vstd::utf8::encode_scalar(c as u32));
    if (c as u32) < 128 {
        assert(vstd::utf8::is_ascii_chars(one));
        vstd::utf8::is_ascii_chars_encode_utf8(one);
        let e = vstd::utf8::encode_utf8(one);
        assert(e.len() == 1);
        assert(e[0] == c as u8);
        assert(e.drop_last() =~= Seq::<u8>::empty());
        assert(byte_sum(e) == byte_sum(e.drop_last()) + e.last() as nat);
        assert(byte_sum(e) == (c as u8) as nat);
    }
}

proof fn lemma_join_spaced_concat(x: Seq<Seq<char>>, y: Seq<Seq<char>>)
    requires
        x.len() > 0,
        y.len() > 0,
    ensures
        join_spaced(x + y) == join_spaced(x) + seq![' '] + join_spaced(y),
    decreases y.len(),
{
    if y.len() == 1 {
        assert((x + y).drop_last() =~= x);
        assert((x + y).last() == y[0]);
    } else {
        assert((x + y).drop_last() =~= x + y.drop_last());
        assert((x + y).last() == y.last());
        lemma_join_spaced_concat(x, y.drop_last());
        assert(join_spaced(x + y) =~= join_spaced(x) + seq![' '] + join_spaced(y));
    }
}

/// Listings join: the listing of two non-empty streams one after the other
/// is the first listing, one space, and the second.
pub proof fn lemma_listing_concat(x: Seq<ByteWord>, y: Seq<ByteWord>)
    requires
        x.len() > 0,
        y.len() > 0,
    ensures
        listing(x + y) == listing(x) + seq![' '] + listing(y),
{
    let f = |w: ByteWord| binary_word(w.opcode);
    assert((x + y).map_values(f) =~= x.map_values(f) + y.map_values(f));
    lemma_join_spaced_concat(x.map_values(f), y.map_values(f));
}

proof fn lemma_binary_digits_chars(n: nat)
    ensures
        forall|i: int|
            0 <= i < binary_digits(n).len() ==> #[trigger] binary_digits(n)[i] == '0'
                || binary_digits(n)[i] == '1',
    decreases n,
{
    if n >= 2 {
        lemma_binary_digits_chars(n / 2);
        lemma_binary_digits_chars(n % 2);
        let x = binary_digits(n / 2);
        let y = binary_digits(n % 2);
        assert forall|i: int| 0 <= i < (x + y).len() implies #[trigger] (x + y)[i] == '0' || (x
            + y)[i] == '1' by {
            if i < x.len() {
                assert((x + y)[i] == x[i]);
            } else {
                assert((x + y)[i] == y[i - x.len()]);
            }
        }
    }
}

proof fn lemma_binary_word_chars(n: u8)
    ensures
        forall|i: int|
            0 <= i < binary_word(n).len() ==> #[trigger] binary_word(n)[i] == '0' || binary_word(
                n,
            )[i] == '1',
{
    lemma_binary_digits_chars(n as nat);
    let w = binary_word(n);
    let d = binary_digits(n as nat);
    assert forall|i: int| 0 <= i < w.len() implies #[trigger] w[i] == '0' || w[i] == '1' by {
        if d.len() < 4 {
            let z = Seq::new((4 - d.len()) as nat, |j: int| '0');
            assert(w == z + d);
            if i < z.len() {
                assert(w[i] == z[i]);
            } else {
                assert(w[i] == d[i - z.len()]);
            }
        }
    }
}

/// Whether every character of `w` is a binary digit.
pub open spec fn binary_chars(w: Seq<char>) -> bool {
    forall|i: int| 0 <= i < w.len() ==> #[trigger] w[i] == '0' || w[i] == '1'
}

/// A listing is made of binary digits and single spaces only: one space
/// between each two words and no other separator (no line feed), and one
/// word per word of the stream.
pub proof fn lemma_listing_shape(code: Seq<ByteWord>)
    ensures
        forall|i: int|
            0 <= i < listing(code).len() ==> (#[trigger] listing(code)[i] == '0' || listing(
                code,
            )[i] == '1' || listing(code)[i] == ' '),
        code.len() == 1 ==> listing(code) == binary_word(code[0].opcode),
        code.len() == 0 ==> listing(code).len() == 0,
{
    let ws = code.map_values(|w: ByteWord| binary_word(w.opcode));
    if code.len() == 1 {
        assert(ws[0] == binary_word(code[0].opcode));
    }
    assert forall|k: int| 0 <= k < ws.len() implies binary_chars(#[trigger] ws[k]) by {
        assert(ws[k] == binary_word(code[k].opcode));
        lemma_binary_word_chars(code[k].opcode);
    }
    lemma_join_spaced_chars(ws);
}

proof fn lemma_join_spaced_chars(ws: Seq<Seq<char>>)
    requires
        forall|k: int| 0 <= k < ws.len() ==> binary_chars(#[trigger] ws[k]),
    ensures
        forall|i: int|
            0 <= i < join_spaced(ws).len() ==> (#[trigger] join_spaced(ws)[i] == '0' || join_spaced(
                ws,
            )[i] == '1' || join_spaced(ws)[i] == ' '),
    decreases ws.len(),
{
    if ws.len() > 0 {
        let w = ws.last();
        assert(binary_chars(ws[ws.len() - 1]));
        if ws.len() > 1 {
            assert forall|k: int| 0 <= k < ws.drop_last().len() implies binary_chars(
                #[trigger] ws.drop_last()[k],
            ) by {
                assert(ws.drop_last()[k] == ws[k]);
            }
            lemma_join_spaced_chars(ws.drop_last());
            let j = join_spaced(ws.drop_last());
            assert forall|i: int| 0 <= i < join_spaced(ws).len() implies (#[trigger] join_spaced(
                ws,
            )[i] == '0' || join_spaced(ws)[i] == '1' || join_spaced(ws)[i] == ' ') by {
                if i < j.len() {
                    assert(join_spaced(ws)[i] == j[i]);
                } else if i == j.len() {
                    assert(join_spaced(ws)[i] == ' ');
                } else {
                    assert(join_spaced(ws)[i] == w[i - j.len() - 1]);
                }
            }
        }
    }
}

} // verus!
