//! What a mutation of bridge calldata does, told byte by byte.

use vstd::prelude::*;

use crate::evm::cross_chain::effects::law_index_is_the_remainder;
use crate::evm::cross_chain::executor::xorshift;
use crate::evm::mutator::{
    abi_field_mutate, abi_field_zero, after_draws, bit_flip, boundary_max, boundary_value,
    deposit_mutated, field_count, lemma_after_draws_adds, low_bits, relay_mutated,
    single_bit, strategy_picked, top_of, AccessView, CrossChainMutationStrategy, MutatorView,
};
use crate::evm::types::{account_in, be_bytes, big_endian, law_word_from_bytes, EVMU256};

verus! {

// ------------------------------------------------------------------ the draws

/// Draws follow one another: the first is the successor of the state, and
/// drawing `b` times after `a` times is drawing `a + b` times.
pub proof fn law_draws_follow_one_another(rng: u64, a: nat, b: nat)
    ensures
        after_draws(rng, 0) == rng,
        after_draws(rng, 1) == xorshift(rng),
        after_draws(after_draws(rng, a), b) == after_draws(rng, a + b),
{
    lemma_after_draws_adds(rng, a, b);
    reveal_with_fuel(after_draws, 2);
}

/// The first three draws, one by one.
proof fn lemma_three_draws(rng: u64)
    ensures
        after_draws(rng, 1) == xorshift(rng),
        after_draws(rng, 2) == xorshift(xorshift(rng)),
        after_draws(rng, 3) == xorshift(xorshift(xorshift(rng))),
{
    reveal_with_fuel(after_draws, 4);
}

// --------------------------------------------------------------- single bytes

/// The mask of a bit flip is the number whose low bits are all set, and the
/// mask of a single bit is the power of two.
pub proof fn law_masks(bits: int)
    ensures
        1 <= bits <= 8 ==> low_bits(bits) + 1 == vstd::arithmetic::power2::pow2(bits as nat),
        0 <= bits < 8 ==> single_bit(bits) == vstd::arithmetic::power2::pow2(bits as nat),
{
    vstd::arithmetic::power2::lemma2_to64();
}

/// A bit flip turns over the low bits of one byte, as many as the second draw
/// says, in the byte that the first draw points at, and nothing else.
pub proof fn law_bit_flip_turns_low_bits(data: Seq<u8>, rng: u64, i: int)
    requires
        0 <= i < data.len(),
        xorshift(rng) <= usize::MAX,
    ensures
        bit_flip(data, rng).0.len() == data.len(),
        bit_flip(data, rng).0[i] == if i == xorshift(rng) as int % (data.len() as int) {
            data[i] ^ low_bits(xorshift(xorshift(rng)) % 8 + 1)
        } else {
            data[i]
        },
        bit_flip(data, rng).1 == xorshift(xorshift(rng)),
{
    lemma_three_draws(rng);
    law_index_is_the_remainder(xorshift(rng), data.len() as int);
}

/// Flipping the same bits twice gives the byte back.
pub proof fn law_bit_flip_is_undone(data: Seq<u8>, rng: u64)
    ensures
        bit_flip(bit_flip(data, rng).0, rng).0 == data,
{
    if data.len() > 0 {
        let once = bit_flip(data, rng).0;
        let twice = bit_flip(once, rng).0;
        assert forall|i: int| 0 <= i < data.len() implies twice[i] == data[i] by {
            let b = data[i];
            let m = low_bits(after_draws(rng, 2) % 8 + 1);
            assert((b ^ m) ^ m == b) by (bit_vector);
        }
        assert(twice =~= data);
    }
}

// ----------------------------------------------------------------- the fields

/// The fields fill the data behind the selector, up to a rest shorter than a
/// field.
pub proof fn law_fields_fill_the_data(data: Seq<u8>)
    ensures
        data.len() < 36 <==> field_count(data) == 0,
        data.len() >= 36 ==> 4 + 32 * field_count(data) <= data.len() < 36 + 32 * field_count(data),
{
}

/// Where a field mutation steps the value, the field changes in its low byte
/// only: that byte is one more, or one less, modulo 256, and every other byte of
/// the data is as before.
pub proof fn law_step_changes_the_low_byte(data: Seq<u8>, rng: u64, i: int)
    requires
        data.len() >= 36,
        xorshift(rng) <= usize::MAX,
        xorshift(xorshift(rng)) % 5 == 2 || xorshift(xorshift(rng)) % 5 == 3,
        0 <= i < data.len(),
    ensures
        ({
            let field = xorshift(rng) as int % ((data.len() - 4) / 32);
            let low = 4 + 32 * field + 31;
            let up = xorshift(xorshift(rng)) % 5 == 2;
            let after = abi_field_mutate(data, rng).0;
            &&& after.len() == data.len()
            &&& i != low ==> after[i] == data[i]
            &&& i == low && up && data[i] < 255 ==> after[i] == data[i] + 1
            &&& i == low && up && data[i] == 255 ==> after[i] == 0
            &&& i == low && !up && data[i] > 0 ==> after[i] == data[i] - 1
            &&& i == low && !up && data[i] == 0 ==> after[i] == 255
        }),
        abi_field_mutate(data, rng).1 == xorshift(xorshift(rng)),
{
    lemma_three_draws(rng);
    law_fields_fill_the_data(data);
    law_index_is_the_remainder(xorshift(rng), field_count(data));
}

/// Stepping up and stepping down undo one another.
pub proof fn law_steps_undo_one_another(data: Seq<u8>, up: u64, down: u64)
    requires
        xorshift(up) <= usize::MAX,
        xorshift(down) <= usize::MAX,
        data.len() >= 36,
        xorshift(up) as int % ((data.len() - 4) / 32) == xorshift(down) as int % ((data.len() - 4)
            / 32),
        xorshift(xorshift(up)) % 5 == 2,
        xorshift(xorshift(down)) % 5 == 3,
    ensures
        abi_field_mutate(abi_field_mutate(data, up).0, down).0 == data,
        abi_field_mutate(abi_field_mutate(data, down).0, up).0 == data,
{
    let raised = abi_field_mutate(data, up).0;
    let lowered = abi_field_mutate(data, down).0;
    law_step_changes_the_low_byte(data, up, 0);
    law_step_changes_the_low_byte(data, down, 0);
    assert forall|i: int| 0 <= i < data.len() implies abi_field_mutate(raised, down).0[i]
        == data[i] by {
        law_step_changes_the_low_byte(data, up, i);
        law_step_changes_the_low_byte(raised, down, i);
    }
    assert forall|i: int| 0 <= i < data.len() implies abi_field_mutate(lowered, up).0[i]
        == data[i] by {
        law_step_changes_the_low_byte(data, down, i);
        law_step_changes_the_low_byte(lowered, up, i);
    }
    law_step_changes_the_low_byte(raised, down, 0);
    law_step_changes_the_low_byte(lowered, up, 0);
    assert(abi_field_mutate(raised, down).0 =~= data);
    assert(abi_field_mutate(lowered, up).0 =~= data);
}

/// Where a field mutation does not step the value, it replaces every byte of
/// the drawn field: with zeros, with ones, or each with the low byte of a draw
/// of its own. Every byte outside the field is as before.
pub proof fn law_field_is_replaced_whole(data: Seq<u8>, rng: u64, i: int)
    requires
        data.len() >= 36,
        xorshift(rng) <= usize::MAX,
        0 <= i < data.len(),
    ensures
        ({
            let start = 4 + 32 * (xorshift(rng) as int % ((data.len() - 4) / 32));
            let second = xorshift(xorshift(rng));
            let after = abi_field_mutate(data, rng).0;
            &&& !(start <= i < start + 32) ==> after[i] == data[i]
            &&& start <= i < start + 32 && second % 5 == 0 ==> after[i] == 0
            &&& start <= i < start + 32 && second % 5 == 1 ==> after[i] == 0xff
            &&& start <= i < start + 32 && second % 5 == 4 ==> after[i] == after_draws(
                second,
                (i - start + 1) as nat,
            ) % 256
            &&& abi_field_mutate(data, rng).1 == if second % 5 == 4 {
                after_draws(second, 32)
            } else {
                second
            }
        }),
{
    lemma_three_draws(rng);
    law_fields_fill_the_data(data);
    law_index_is_the_remainder(xorshift(rng), field_count(data));
    lemma_after_draws_adds(rng, 2, 32);
}

/// Clearing a field sets its bytes to zero, one draw having told which field,
/// and leaves every other byte as it was. Data without a whole field stays as it
/// is, and costs no draw.
pub proof fn law_field_is_cleared(data: Seq<u8>, rng: u64, i: int)
    requires
        xorshift(rng) <= usize::MAX,
        0 <= i < data.len(),
    ensures
        data.len() < 36 ==> abi_field_zero(data, rng) == (data, rng),
        data.len() < 36 ==> abi_field_mutate(data, rng) == (data, rng),
        data.len() >= 36 ==> ({
            let start = 4 + 32 * (xorshift(rng) as int % ((data.len() - 4) / 32));
            &&& abi_field_zero(data, rng).0[i] == if start <= i < start + 32 {
                0
            } else {
                data[i]
            }
            &&& abi_field_zero(data, rng).1 == xorshift(rng)
        }),
{
    lemma_three_draws(rng);
    law_fields_fill_the_data(data);
    if data.len() >= 36 {
        law_index_is_the_remainder(xorshift(rng), field_count(data));
    }
}

// ----------------------------------------------------------- boundary values

/// Byte `j` of a boundary value, counted from the least significant one: all
/// zeros, all ones, ones in the low four bytes, or the number one.
pub open spec fn boundary_byte(draw: u64, j: int) -> u8 {
    if draw % 5 == 0 {
        0
    } else if draw % 5 == 1 || draw % 5 == 2 {
        0xff
    } else if draw % 5 == 3 {
        if j < 4 {
            0xff
        } else {
            0
        }
    } else {
        if j == 0 {
            1
        } else {
            0
        }
    }
}

proof fn lemma_bytes_of_boundaries()
    ensures
        forall|j: int|
            0 <= j < 8 ==> {
                &&& #[trigger] be_bytes(0, 8)[7 - j] == 0
                &&& be_bytes(u64::MAX as nat, 8)[7 - j] == 0xff
                &&& be_bytes(0xffff_ffff, 8)[7 - j] == if j < 4 {
                    0xffu8
                } else {
                    0u8
                }
                &&& be_bytes(1, 8)[7 - j] == if j == 0 {
                    1u8
                } else {
                    0u8
                }
            },
{
    reveal_with_fuel(be_bytes, 9);
}

/// A boundary value ends where its field ends, which is after 32 bytes or with
/// the data: its low byte is the last byte of the field, and it reaches back
/// over eight bytes or to the start of the field. All other bytes are as before.
pub proof fn law_boundary_value_ends_the_field(data: Seq<u8>, offset: int, rng: u64, i: int)
    requires
        0 <= offset,
        xorshift(rng) <= usize::MAX,
        0 <= i < data.len(),
    ensures
        ({
            let end = if offset + 32 <= data.len() {
                offset + 32
            } else {
                data.len() as int
            };
            let after = boundary_value(data, offset, rng).0;
            &&& after.len() == data.len()
            &&& after[i] == if offset <= i < end && end - 8 <= i {
                boundary_byte(xorshift(rng), end - 1 - i)
            } else {
                data[i]
            }
        }),
        boundary_value(data, offset, rng).1 == xorshift(rng),
{
    let draw = xorshift(rng);
    let end = if offset + 32 <= data.len() {
        offset + 32
    } else {
        data.len() as int
    };
    lemma_three_draws(rng);
    law_index_is_the_remainder(draw, 5);
    crate::evm::types::lemma_be_bytes_round_trip(crate::evm::mutator::boundary(draw) as nat, 8);
    lemma_bytes_of_boundaries();
    let j = end - 1 - i;
    if offset <= i < end && end - 8 <= i {
        assert(0 <= j < 8);
        assert(be_bytes(0, 8)[7 - j] == 0);
    }
}

/// Raising a field to the largest value sets its bytes to ones, up to the end of
/// the field or of the data, and leaves every other byte as it was.
pub proof fn law_largest_value_fills_the_field(data: Seq<u8>, offset: int, i: int)
    requires
        0 <= offset,
        0 <= i < data.len(),
    ensures
        boundary_max(data, offset).len() == data.len(),
        boundary_max(data, offset)[i] == if offset <= i < offset + 32 {
            0xff
        } else {
            data[i]
        },
{
}

// ------------------------------------------------------------- the two phases

/// What a deposit mutates depends on the first draw modulo four: the amount
/// behind the selector in two cases, one byte in the third, one field in the
/// last.
pub proof fn law_deposit_mutation_by_draw(data: Seq<u8>, rng: u64, i: int)
    requires
        0 <= i < data.len(),
        xorshift(xorshift(rng)) <= usize::MAX,
    ensures
        ({
            let draw = xorshift(rng);
            let after = deposit_mutated(data, rng).0;
            let end = if data.len() < 36 {
                data.len() as int
            } else {
                36
            };
            &&& draw % 4 <= 1 ==> {
                &&& after.len() == data.len()
                &&& after[i] == if 4 <= i < end && end - 8 <= i {
                    boundary_byte(xorshift(draw), end - 1 - i)
                } else {
                    data[i]
                }
                &&& deposit_mutated(data, rng).1 == xorshift(draw)
            }
            &&& draw % 4 == 2 ==> deposit_mutated(data, rng) == bit_flip(data, draw)
            &&& draw % 4 == 3 ==> deposit_mutated(data, rng) == abi_field_mutate(data, draw)
        }),
{
    let draw = xorshift(rng);
    assert(draw % 4 < 4);
    law_boundary_value_ends_the_field(data, 4, draw, i);
}

/// What a relay asks the executor to force: in two of five draws each flag is
/// tossed on its own, in one the value is inflated together with the amount in
/// the data, and in the others nothing is asked.
pub proof fn law_relay_mutation_asks(data: Seq<u8>, rng: u64)
    ensures
        ({
            let draw = xorshift(rng);
            let asked = relay_mutated(data, rng).1;
            &&& asked.force_zero_merkle_root <==> draw % 5 <= 1 && xorshift(draw) % 2 == 0
            &&& asked.force_replay_nonce <==> draw % 5 <= 1 && xorshift(xorshift(draw)) % 2 == 0
            &&& asked.force_inflate_value <==> draw % 5 == 4 || (draw % 5 <= 1 && xorshift(
                xorshift(xorshift(draw)),
            ) % 2 == 0)
        }),
{
    lemma_three_draws(xorshift(rng));
}

/// What a relay changes in the data: nothing where it only asks the executor;
/// one field is cleared; one bit of the first 64 bytes is turned over; or the
/// amount behind the selector is raised to the largest value.
pub proof fn law_relay_mutation_by_draw(data: Seq<u8>, rng: u64, i: int)
    requires
        0 <= i < data.len(),
        xorshift(xorshift(rng)) <= usize::MAX,
    ensures
        ({
            let draw = xorshift(rng);
            let after = relay_mutated(data, rng).0;
            let reach = if data.len() < 64 {
                data.len() as int
            } else {
                64
            };
            &&& after.len() == data.len()
            &&& draw % 5 <= 1 ==> after[i] == data[i]
            &&& draw % 5 == 2 ==> after == abi_field_zero(data, draw).0
            &&& draw % 5 == 3 ==> after[i] == if i == xorshift(draw) as int % reach {
                data[i] ^ single_bit((xorshift(xorshift(draw)) % 8) as int)
            } else {
                data[i]
            }
            &&& draw % 5 == 4 ==> after[i] == if 4 <= i < 36 {
                0xff
            } else {
                data[i]
            }
        }),
{
    let draw = xorshift(rng);
    let reach = if data.len() < 64 {
        data.len() as int
    } else {
        64
    };
    lemma_three_draws(draw);
    law_index_is_the_remainder(xorshift(draw), reach);
}

/// How far a relay mutation moves the generator on: by one draw for the choice,
/// and by one for each toss, for the field, or for the byte and the bit.
pub proof fn law_relay_mutation_draws(data: Seq<u8>, rng: u64)
    ensures
        ({
            let draw = xorshift(rng);
            let taken: nat = if draw % 5 <= 1 {
                4
            } else if draw % 5 == 2 && data.len() >= 36 {
                2
            } else if draw % 5 == 3 && data.len() > 0 {
                3
            } else {
                1
            };
            relay_mutated(data, rng).2 == after_draws(rng, taken)
        }),
{
    law_fields_fill_the_data(data);
    reveal_with_fuel(after_draws, 5);
}

/// Seven draws out of ten explore, and so does every draw before a strategy was
/// used: the next draw then picks one of the four strategies. Otherwise the last
/// strategy is used again, and nothing more is drawn.
pub proof fn law_strategy_by_draw(last: Option<CrossChainMutationStrategy>, rng: u64)
    ensures
        ({
            let draw = xorshift(rng);
            let second = xorshift(draw);
            let (picked, after) = strategy_picked(last, rng);
            let explores = draw % 100 < 70 || last is None;
            &&& after == if explores {
                second
            } else {
                draw
            }
            &&& !explores ==> last == Some(picked)
            &&& explores ==> (picked is BitFlip <==> second % 4 == 0)
            &&& explores ==> (picked is AbiFieldMutate <==> second % 4 == 1)
            &&& explores ==> (picked is StateAwareMutate <==> second % 4 == 2)
            &&& explores ==> (picked is BoundaryValue <==> second % 4 == 3)
        }),
{
    lemma_three_draws(rng);
}

/// Selecting a corpus entry costs one draw, which is handed out, and none where
/// there is nothing to select from. The corpus stays as it is.
pub proof fn law_selection_draws_once(m: MutatorView)
    ensures
        m.selection_drawn().0.corpus == m.corpus,
        m.selection_drawn().0.abi_available == m.abi_available,
        m.corpus.len() == 0 ==> m.selection_drawn() == (m, None::<u64>),
        m.corpus.len() > 0 ==> m.selection_drawn().0.rng == xorshift(m.rng)
            && m.selection_drawn().1 == Some(xorshift(m.rng)),
{
}

// ---------------------------------------------------------- the access pattern

/// An opcode shows in the pattern as the one thing that it looks at, and no
/// other opcode shows as that.
pub proof fn law_access_by_opcode(a: AccessView, opcode: u8, top: Option<EVMU256>)
    ensures
        ({
            let b = a.decoded(opcode, top);
            &&& b.caller <==> a.caller || opcode == 0x32 || opcode == 0x33
            &&& b.call_value <==> a.call_value || opcode == 0x34
            &&& b.gas_price <==> a.gas_price || opcode == 0x3a
            &&& b.coinbase <==> a.coinbase || opcode == 0x41
            &&& b.timestamp <==> a.timestamp || opcode == 0x42
            &&& b.number <==> a.number || opcode == 0x43
            &&& b.prevrandao <==> a.prevrandao || opcode == 0x44
            &&& b.gas_limit <==> a.gas_limit || opcode == 0x45
            &&& b.chain_id <==> a.chain_id || opcode == 0x46
            &&& b.basefee <==> a.basefee || opcode == 0x48
            &&& opcode != 0x31 ==> b.balance == a.balance
            &&& opcode == 0x31 && top is Some ==> b.balance == a.balance.push(account_in(top->0))
        }),
{
}

/// The word on top of a stack is the last one, read with the most significant
/// byte first; an empty stack has none.
pub proof fn law_top_is_the_last_word(words: Seq<Seq<u8>>, word: Seq<u8>)
    requires
        word.len() == 32,
    ensures
        top_of(Seq::<Seq<u8>>::empty()) is None,
        top_of(words.push(word)) matches Some(w) && w.value() == big_endian(word),
{
    law_word_from_bytes(word);
}

} // verus!
