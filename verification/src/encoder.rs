//! Bit-serial command encoder.
//!
//! The panel's configuration channel is emulated on three bits of the I/O
//! expander's 8-bit output register: a virtual chip-select (active low), a
//! virtual clock and a virtual data line. One byte is sent as one frame of
//! nine bits: a mode bit (logical 0 for a command opcode, logical 1 for a
//! parameter byte) followed by the byte's eight data bits, most significant
//! first. The panel latches the data line on every rising clock edge.
//!
//! The encoder is pure: it turns a byte into the exact ordered sequence of
//! output-register values the bus must be given. The hardware shell writes
//! them one by one and stops at the first bus fault.

use vstd::prelude::*;

verus! {

/// Output-register bit of the virtual chip-select line (active low).
pub const SCS_BIT: u8 = 0b0000_0010;

/// Output-register bit of the virtual clock line.
pub const SCL_BIT: u8 = 0b0000_0100;

/// Output-register bit of the virtual data line.
pub const SDA_BIT: u8 = 0b0000_1000;

/// Register value written at the start of every frame: chip-select asserted
/// (low), clock and data low, every unrelated board-control bit held at its
/// required level.
pub const FRAME_START_OUTPUT: u8 = 0b1111_0001;

/// Register value the board is put into before and between frames:
/// as `FRAME_START_OUTPUT` but with chip-select deasserted.
pub const IDLE_OUTPUT: u8 = 0b1111_0011;

/// The clock line's level in an output-register value.
pub open spec fn scl(v: u8) -> bool {
    v & SCL_BIT == SCL_BIT
}

/// The data line's level in an output-register value.
pub open spec fn sda(v: u8) -> bool {
    v & SDA_BIT == SDA_BIT
}

/// Bit `i` of a byte (bit 0 is the least significant).
pub open spec fn bit_of(b: u8, i: u8) -> bool {
    (b >> i) & 1 == 1
}

/// The nine bits of one frame: the mode bit (the negation of "is a command"),
/// then the byte's bits from most significant to least significant.
pub open spec fn frame_bits(b: u8, is_command: bool) -> Seq<bool> {
    Seq::new(9, |j: int| if j == 0 { !is_command } else { bit_of(b, (8 - j) as u8) })
}

/// The register value after driving the data line to `bit`.
pub open spec fn with_data(v: u8, bit: bool) -> u8 {
    if bit {
        v | SDA_BIT
    } else {
        v & !SDA_BIT
    }
}

/// Register writes that transmit one bit, starting from value `v`: the data
/// line is driven to the bit (the write is skipped when the value would not
/// change), then the clock is pulsed low and high, unconditionally.
pub open spec fn bit_writes(v: u8, bit: bool) -> Seq<u8> {
    let d = with_data(v, bit);
    let lo = d & !SCL_BIT;
    let hi = lo | SCL_BIT;
    if d == v {
        seq![lo, hi]
    } else {
        seq![d, lo, hi]
    }
}

/// The register value left behind after transmitting one bit from value `v`.
pub open spec fn after_bit(v: u8, bit: bool) -> u8 {
    (with_data(v, bit) & !SCL_BIT) | SCL_BIT
}

/// The register value left behind after transmitting `bits` from value `v`.
pub open spec fn after_bits(v: u8, bits: Seq<bool>) -> u8
    decreases bits.len(),
{
    if bits.len() == 0 {
        v
    } else {
        after_bit(after_bits(v, bits.drop_last()), bits.last())
    }
}

/// Register writes that transmit `bits` in order, starting from value `v`.
pub open spec fn bits_writes(v: u8, bits: Seq<bool>) -> Seq<u8>
    decreases bits.len(),
{
    if bits.len() == 0 {
        seq![]
    } else {
        bits_writes(v, bits.drop_last()) + bit_writes(
            after_bits(v, bits.drop_last()),
            bits.last(),
        )
    }
}

/// Register writes that close a frame from value `v`: clock low, data low,
/// chip-select deasserted, in that order.
pub open spec fn frame_tail_writes(v: u8) -> Seq<u8> {
    let a = v & !SCL_BIT;
    let b = a & !SDA_BIT;
    seq![a, b, b | SCS_BIT]
}

/// Every register write of one nine-bit frame, in the order the bus must
/// perform them.
pub open spec fn frame_writes(b: u8, is_command: bool) -> Seq<u8> {
    let bits = frame_bits(b, is_command);
    seq![FRAME_START_OUTPUT] + bits_writes(FRAME_START_OUTPUT, bits) + frame_tail_writes(
        after_bits(FRAME_START_OUTPUT, bits),
    )
}

/// The values the panel latches from a sequence of register writes: the data
/// line's level at every rising edge of the clock line, given the register
/// value `prev` that was in force before the first write.
pub open spec fn rising_samples(prev: u8, writes: Seq<u8>) -> Seq<bool>
    decreases writes.len(),
{
    if writes.len() == 0 {
        seq![]
    } else {
        let head = writes[0];
        let rest = rising_samples(head, writes.skip(1));
        if !scl(prev) && scl(head) {
            seq![sda(head)] + rest
        } else {
            rest
        }
    }
}

/// Splitting a write sequence splits its samples: the second part is sampled
/// from the last value of the first part.
pub proof fn lemma_rising_samples_concat(prev: u8, s: Seq<u8>, t: Seq<u8>)
    ensures
        rising_samples(prev, s + t) == rising_samples(prev, s) + rising_samples(
            if s.len() == 0 {
                prev
            } else {
                s.last()
            },
            t,
        ),
    decreases s.len(),
{
    if s.len() == 0 {
        assert(s + t =~= t);
    } else {
        assert((s + t).skip(1) =~= s.skip(1) + t);
        lemma_rising_samples_concat(s[0], s.skip(1), t);
        if s.len() == 1 {
            assert(s.skip(1).len() == 0);
        } else {
            assert(s.skip(1).last() == s.last());
        }
    }
}

/// One transmitted bit produces exactly one rising clock edge, and the data
/// line carries that bit at the edge. Holds whatever value was on the bus
/// before, as long as the clock was not dropped behind the encoder's back.
proof fn lemma_bit_writes_samples(prev: u8, v: u8, bit: bool)
    requires
        scl(v) ==> scl(prev),
    ensures
        rising_samples(prev, bit_writes(v, bit)) == seq![bit],
        bit_writes(v, bit).len() > 0,
        bit_writes(v, bit).last() == after_bit(v, bit),
        scl(after_bit(v, bit)),
{
    let d = with_data(v, bit);
    let lo = d & !SCL_BIT;
    let hi = lo | SCL_BIT;
    assert(scl(with_data(v, bit)) == scl(v)) by (bit_vector);
    assert(!scl(with_data(v, bit) & !SCL_BIT)) by (bit_vector);
    assert(scl((with_data(v, bit) & !SCL_BIT) | SCL_BIT)) by (bit_vector);
    assert(sda((with_data(v, bit) & !SCL_BIT) | SCL_BIT) == bit) by (bit_vector);
    assert(seq![hi].skip(1) =~= Seq::<u8>::empty());
    assert(rising_samples(hi, Seq::<u8>::empty()) == Seq::<bool>::empty());
    assert(rising_samples(lo, seq![hi]) =~= seq![bit]);
    assert(seq![lo, hi].skip(1) =~= seq![hi]);
    assert(rising_samples(lo, seq![lo, hi].skip(1)) == rising_samples(lo, seq![hi]));
    assert(rising_samples(prev, seq![lo, hi]) =~= seq![bit]);
    if d == v {
        assert(bit_writes(v, bit) == seq![lo, hi]);
    } else {
        assert(seq![d, lo, hi].skip(1) =~= seq![lo, hi]);
        assert(rising_samples(d, seq![lo, hi]) =~= seq![bit]);
        assert(!(!scl(prev) && scl(d)));
        assert(rising_samples(prev, seq![d, lo, hi]) =~= seq![bit]);
        assert(bit_writes(v, bit) == seq![d, lo, hi]);
    }
}

/// A whole bit sequence is recovered from the encoder's writes by sampling
/// the data line at the rising clock edges: one edge per bit, in order.
pub proof fn lemma_bits_writes_samples(prev: u8, v: u8, bits: Seq<bool>)
    requires
        scl(v) ==> scl(prev),
    ensures
        rising_samples(prev, bits_writes(v, bits)) == bits,
        bits.len() > 0 ==> bits_writes(v, bits).len() > 0,
        bits.len() > 0 ==> bits_writes(v, bits).last() == after_bits(v, bits),
        bits.len() > 0 ==> scl(after_bits(v, bits)),
    decreases bits.len(),
{
    if bits.len() == 0 {
    } else {
        let init = bits.drop_last();
        let lastbit = bits.last();
        let mid = after_bits(v, init);
        let head = bits_writes(v, init);
        let tail = bit_writes(mid, lastbit);
        lemma_bits_writes_samples(prev, v, init);
        lemma_rising_samples_concat(prev, head, tail);
        if init.len() == 0 {
            lemma_bit_writes_samples(prev, v, lastbit);
        } else {
            lemma_bit_writes_samples(mid, mid, lastbit);
        }
        assert((head + tail).last() == tail.last());
        assert(rising_samples(prev, bits_writes(v, bits)) =~= bits);
    }
}

/// The panel sees exactly the frame's nine bits: sampling the data line at
/// every rising clock edge of `frame_writes(b, is_command)` yields
/// `frame_bits(b, is_command)`, for any bus value `prev` in force before the
/// frame. In particular every frame produces exactly nine clock pulses,
/// whether or not any data-line write was skipped as redundant.
pub proof fn lemma_frame_writes_samples(prev: u8, b: u8, is_command: bool)
    ensures
        rising_samples(prev, frame_writes(b, is_command)) == frame_bits(b, is_command),
{
    let bits = frame_bits(b, is_command);
    let v0 = FRAME_START_OUTPUT;
    let s1: Seq<u8> = seq![v0];
    let s2 = bits_writes(v0, bits);
    let fin = after_bits(v0, bits);
    let s3 = frame_tail_writes(fin);
    assert(bits.len() == 9);
    assert(!scl(FRAME_START_OUTPUT)) by (bit_vector);
    lemma_bits_writes_samples(v0, v0, bits);
    lemma_rising_samples_concat(prev, s1, s2);
    assert(s1.skip(1) =~= Seq::<u8>::empty());
    assert(rising_samples(v0, Seq::<u8>::empty()) == Seq::<bool>::empty());
    assert(rising_samples(prev, s1) =~= Seq::<bool>::empty());
    assert(rising_samples(prev, s1 + s2) == bits);
    lemma_rising_samples_concat(prev, s1 + s2, s3);
    assert((s1 + s2).last() == s2.last());
    let a = fin & !SCL_BIT;
    let bb = a & !SDA_BIT;
    let c = bb | SCS_BIT;
    assert(!scl(fin & !SCL_BIT)) by (bit_vector);
    assert(!scl((fin & !SCL_BIT) & !SDA_BIT)) by (bit_vector);
    assert(!scl(((fin & !SCL_BIT) & !SDA_BIT) | SCS_BIT)) by (bit_vector);
    assert(seq![c].skip(1) =~= Seq::<u8>::empty());
    assert(rising_samples(c, Seq::<u8>::empty()) == Seq::<bool>::empty());
    assert(rising_samples(bb, seq![c]) =~= Seq::<bool>::empty());
    assert(seq![bb, c].skip(1) =~= seq![c]);
    assert(rising_samples(a, seq![bb, c]) =~= Seq::<bool>::empty());
    assert(seq![a, bb, c].skip(1) =~= seq![bb, c]);
    assert(rising_samples(s2.last(), seq![a, bb, c]) =~= Seq::<bool>::empty());
    assert(s3 == seq![a, bb, c]);
    assert(frame_writes(b, is_command) == (s1 + s2) + s3);
    assert(rising_samples(prev, (s1 + s2) + s3) =~= bits);
}

/// Computes the ordered output-register writes that transmit one byte as one
/// nine-bit frame.
pub fn encode_frame(b: u8, is_command: bool) -> (w: Vec<u8>)
    ensures
        w@ == frame_writes(b, is_command),
{
    let ghost bits = frame_bits(b, is_command);
    let mut w: Vec<u8> = Vec::new();
    let mut output: u8 = FRAME_START_OUTPUT;
    w.push(output);
    let mut j: usize = 0;
    while j < 9
        invariant
            j <= 9,
            bits == frame_bits(b, is_command),
            output == after_bits(FRAME_START_OUTPUT, bits.take(j as int)),
            w@ == seq![FRAME_START_OUTPUT] + bits_writes(FRAME_START_OUTPUT, bits.take(j as int)),
        decreases 9 - j,
    {
        let bit: bool = if j == 0 {
            !is_command
        } else {
            (b >> (8 - j) as u8) & 1 == 1
        };
        assert(bit == bits[j as int]);
        let prev = output;
        if bit {
            output = output | SDA_BIT;
        } else {
            output = output & !SDA_BIT;
        }
        if prev != output {
            w.push(output);
        }
        output = output & !SCL_BIT;
        w.push(output);
        output = output | SCL_BIT;
        w.push(output);
        proof {
            assert(bits.take(j + 1).drop_last() =~= bits.take(j as int));
            assert(bits.take(j + 1).last() == bits[j as int]);
            assert(w@ =~= seq![FRAME_START_OUTPUT] + bits_writes(
                FRAME_START_OUTPUT,
                bits.take(j + 1),
            ));
        }
        j = j + 1;
    }
    proof {
        assert(bits.take(9) =~= bits);
    }
    output = output & !SCL_BIT;
    w.push(output);
    output = output & !SDA_BIT;
    w.push(output);
    output = output | SCS_BIT;
    w.push(output);
    proof {
        assert(w@ =~= frame_writes(b, is_command));
    }
    w
}

/// The five output-register bits that do not belong to the serial channel
/// drive unrelated board control: `v` keeps them when it holds each of them
/// at the level the idle value has.
pub open spec fn board_bits_kept(v: u8) -> bool {
    v & !(SCS_BIT | SCL_BIT | SDA_BIT) == IDLE_OUTPUT & !(SCS_BIT | SCL_BIT | SDA_BIT)
}

/// Transmitting one bit never touches a board-control bit.
proof fn lemma_bit_writes_board_bits(v: u8, bit: bool)
    requires
        board_bits_kept(v),
    ensures
        forall|k: int|
            0 <= k < bit_writes(v, bit).len() ==> board_bits_kept(#[trigger] bit_writes(v, bit)[k]),
        board_bits_kept(after_bit(v, bit)),
{
    assert(board_bits_kept(v) ==> board_bits_kept(with_data(v, bit))) by (bit_vector);
    assert(board_bits_kept(with_data(v, bit)) ==> board_bits_kept(with_data(v, bit) & !SCL_BIT))
        by (bit_vector);
    assert(board_bits_kept(with_data(v, bit) & !SCL_BIT) ==> board_bits_kept(
        (with_data(v, bit) & !SCL_BIT) | SCL_BIT,
    )) by (bit_vector);
}

/// Transmitting a bit sequence never touches a board-control bit.
proof fn lemma_bits_writes_board_bits(v: u8, bits: Seq<bool>)
    requires
        board_bits_kept(v),
    ensures
        forall|k: int|
            0 <= k < bits_writes(v, bits).len() ==> board_bits_kept(
                #[trigger] bits_writes(v, bits)[k],
            ),
        board_bits_kept(after_bits(v, bits)),
    decreases bits.len(),
{
    if bits.len() == 0 {
    } else {
        let init = bits.drop_last();
        let mid = after_bits(v, init);
        lemma_bits_writes_board_bits(v, init);
        lemma_bit_writes_board_bits(mid, bits.last());
        let head = bits_writes(v, init);
        let tail = bit_writes(mid, bits.last());
        assert forall|k: int| 0 <= k < bits_writes(v, bits).len() implies board_bits_kept(
            #[trigger] bits_writes(v, bits)[k],
        ) by {
            if k < head.len() {
                assert(bits_writes(v, bits)[k] == head[k]);
            } else {
                assert(bits_writes(v, bits)[k] == tail[k - head.len()]);
            }
        }
    }
}

/// Every write of a frame keeps every board-control bit at its required
/// level: the encoder only ever moves the chip-select, clock and data bits.
pub proof fn lemma_frame_writes_board_bits(b: u8, is_command: bool)
    ensures
        forall|k: int|
            0 <= k < frame_writes(b, is_command).len() ==> board_bits_kept(
                #[trigger] frame_writes(b, is_command)[k],
            ),
{
    let bits = frame_bits(b, is_command);
    let v0 = FRAME_START_OUTPUT;
    assert(board_bits_kept(FRAME_START_OUTPUT)) by (bit_vector);
    lemma_bits_writes_board_bits(v0, bits);
    let fin = after_bits(v0, bits);
    assert(board_bits_kept(fin) ==> board_bits_kept(fin & !SCL_BIT)) by (bit_vector);
    assert(board_bits_kept(fin & !SCL_BIT) ==> board_bits_kept((fin & !SCL_BIT) & !SDA_BIT))
        by (bit_vector);
    assert(board_bits_kept((fin & !SCL_BIT) & !SDA_BIT) ==> board_bits_kept(
        ((fin & !SCL_BIT) & !SDA_BIT) | SCS_BIT,
    )) by (bit_vector);
    let s12 = seq![v0] + bits_writes(v0, bits);
    let s3 = frame_tail_writes(fin);
    assert forall|k: int| 0 <= k < frame_writes(b, is_command).len() implies board_bits_kept(
        #[trigger] frame_writes(b, is_command)[k],
    ) by {
        if k < s12.len() {
            assert(frame_writes(b, is_command)[k] == s12[k]);
            if k >= 1 {
                assert(s12[k] == bits_writes(v0, bits)[k - 1]);
            }
        } else {
            assert(frame_writes(b, is_command)[k] == s3[k - s12.len()]);
        }
    }
}

/// A frame leaves the bus at the idle value: clock low, data low,
/// chip-select deasserted, board-control bits untouched.
pub proof fn lemma_frame_writes_end_idle(b: u8, is_command: bool)
    ensures
        frame_writes(b, is_command).len() > 0,
        frame_writes(b, is_command).last() == IDLE_OUTPUT,
{
    let bits = frame_bits(b, is_command);
    let v0 = FRAME_START_OUTPUT;
    let fin = after_bits(v0, bits);
    assert(board_bits_kept(FRAME_START_OUTPUT)) by (bit_vector);
    lemma_bits_writes_board_bits(v0, bits);
    assert(board_bits_kept(fin) ==> ((fin & !SCL_BIT) & !SDA_BIT) | SCS_BIT == IDLE_OUTPUT)
        by (bit_vector);
    assert(frame_writes(b, is_command).last() == frame_tail_writes(fin).last());
}

/// The register writes of the parameter frames of a command, in parameter
/// order; every parameter frame carries mode bit 1.
pub open spec fn params_writes(params: Seq<u8>) -> Seq<u8>
    decreases params.len(),
{
    if params.len() == 0 {
        seq![]
    } else {
        params_writes(params.drop_last()) + frame_writes(params.last(), false)
    }
}

/// Every register write of a whole command: the opcode's frame (mode bit 0)
/// followed by one frame per parameter byte (mode bit 1 each), in order.
pub open spec fn command_writes(opcode: u8, params: Seq<u8>) -> Seq<u8> {
    frame_writes(opcode, true) + params_writes(params)
}

/// The bits the parameter frames of a command clock out, in parameter order.
pub open spec fn params_bits(params: Seq<u8>) -> Seq<bool>
    decreases params.len(),
{
    if params.len() == 0 {
        seq![]
    } else {
        params_bits(params.drop_last()) + frame_bits(params.last(), false)
    }
}

/// The bits a whole command clocks out: the opcode frame's nine bits (mode
/// bit 0 first), then each parameter frame's nine bits (mode bit 1 first).
pub open spec fn command_bits(opcode: u8, params: Seq<u8>) -> Seq<bool> {
    frame_bits(opcode, true) + params_bits(params)
}

/// A command byte with `k` parameter bytes is put on the wire as exactly
/// `k + 1` nine-bit frames: sampling the data line at every rising clock edge
/// of the command's whole write stream yields precisely `command_bits` —
/// `9 * (k + 1)` clock pulses — for any bus value `prev` in force before it.
pub proof fn lemma_command_writes_samples(prev: u8, opcode: u8, params: Seq<u8>)
    ensures
        rising_samples(prev, command_writes(opcode, params)) == command_bits(opcode, params),
        command_bits(opcode, params).len() == 9 * (params.len() + 1),
    decreases params.len(),
{
    if params.len() == 0 {
        assert(command_writes(opcode, params) =~= frame_writes(opcode, true));
        lemma_frame_writes_samples(prev, opcode, true);
        assert(command_bits(opcode, params) =~= frame_bits(opcode, true));
    } else {
        let init = params.drop_last();
        let last = params.last();
        let head = command_writes(opcode, init);
        let tail = frame_writes(last, false);
        lemma_command_writes_samples(prev, opcode, init);
        assert(command_writes(opcode, params) =~= head + tail);
        lemma_rising_samples_concat(prev, head, tail);
        if head.len() == 0 {
            lemma_frame_writes_samples(prev, last, false);
        } else {
            lemma_frame_writes_samples(head.last(), last, false);
        }
        assert(command_bits(opcode, params) =~= command_bits(opcode, init) + frame_bits(
            last,
            false,
        ));
    }
}

/// Encodes a command byte with its parameter bytes into one frame each:
/// exactly `params.len() + 1` frames, the opcode's first.
pub fn encode_command(opcode: u8, params: &Vec<u8>) -> (frames: Vec<Vec<u8>>)
    ensures
        frames@.len() == params@.len() + 1,
        frames@[0]@ == frame_writes(opcode, true),
        forall|i: int|
            0 <= i < params@.len() ==> #[trigger] frames@[i + 1]@ == frame_writes(
                params@[i],
                false,
            ),
{
    let mut frames: Vec<Vec<u8>> = Vec::new();
    frames.push(encode_frame(opcode, true));
    let mut k: usize = 0;
    while k < params.len()
        invariant
            k <= params@.len(),
            frames@.len() == k + 1,
            frames@[0]@ == frame_writes(opcode, true),
            forall|i: int|
                0 <= i < k ==> #[trigger] frames@[i + 1]@ == frame_writes(params@[i], false),
        decreases params@.len() - k,
    {
        frames.push(encode_frame(params[k], false));
        k = k + 1;
    }
    frames
}

/// Appends every element of `src` to `dst`, in order.
fn push_all(dst: &mut Vec<u8>, src: &Vec<u8>)
    ensures
        final(dst)@ == old(dst)@ + src@,
{
    let mut k: usize = 0;
    while k < src.len()
        invariant
            k <= src@.len(),
            dst@ == old(dst)@ + src@.take(k as int),
        decreases src@.len() - k,
    {
        dst.push(src[k]);
        proof {
            assert(old(dst)@ + src@.take(k + 1) =~= (old(dst)@ + src@.take(k as int)).push(
                src@[k as int],
            ));
        }
        k = k + 1;
    }
    proof {
        assert(src@.take(src@.len() as int) =~= src@);
    }
}

/// Encodes a whole command into the flat, ordered register write sequence the
/// bus must perform: the opcode's frame, then each parameter's frame.
pub fn encode_command_writes(opcode: u8, params: &Vec<u8>) -> (w: Vec<u8>)
    ensures
        w@ == command_writes(opcode, params@),
{
    let mut w = encode_frame(opcode, true);
    let mut k: usize = 0;
    while k < params.len()
        invariant
            k <= params@.len(),
            w@ == frame_writes(opcode, true) + params_writes(params@.take(k as int)),
        decreases params@.len() - k,
    {
        let frame = encode_frame(params[k], false);
        push_all(&mut w, &frame);
        proof {
            assert(params@.take(k + 1).drop_last() =~= params@.take(k as int));
            assert((frame_writes(opcode, true) + params_writes(params@.take(k as int))) + frame@
                =~= frame_writes(opcode, true) + params_writes(params@.take(k + 1)));
        }
        k = k + 1;
    }
    proof {
        assert(params@.take(params@.len() as int) =~= params@);
    }
    w
}

} // verus!
