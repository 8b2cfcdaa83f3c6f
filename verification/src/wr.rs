//! Work-request identities and receive credit.

use vstd::prelude::*;

use crate::buffer::SlotId;
use crate::error::{invalid, protocol, Error, ErrorView, Result};
use crate::text;
use crate::text::with_number;

pub mod laws;

verus! {

/// What a work request does.
#[derive(Clone, Copy, Debug, Eq, Hash, PartialEq, Structural)]
pub enum OperationType {
    Send,
    Recv,
}

impl OperationType {
    /// The number that stands for the operation in a `user_ctx`.
    pub open spec fn code(self) -> u8 {
        match self {
            OperationType::Send => 1,
            OperationType::Recv => 2,
        }
    }

    /// The number that stands for the operation in a `user_ctx`.
    pub fn wire_value(self) -> (value: u8)
        ensures
            value == self.code(),
    {
        match self {
            OperationType::Send => 1,
            OperationType::Recv => 2,
        }
    }

    /// The operation that a number stands for.
    pub fn try_from(value: u8) -> (operation: Result<Self>)
        ensures
            match operation {
                Ok(operation) => operation.code() == value,
                Err(error) => {
                    &&& value != 1 && value != 2
                    &&& error@ == ErrorView::Protocol(
                        "invalid WR operation type "@ + text::decimal(value as nat) + ""@,
                    )
                },
            },
    {
        match value {
            1 => Ok(OperationType::Send),
            2 => Ok(OperationType::Recv),
            _ => Err(Error::Protocol(with_number("invalid WR operation type ", value as u64, ""))),
        }
    }
}

/// A stable, pointer-free `user_ctx`:
/// `[connection:16][generation:8][operation:8][slot:32]`.
#[derive(Clone, Copy, Debug, Eq, Hash, PartialEq, Structural)]
pub struct WrToken {
    pub connection_id: u16,
    pub generation: u8,
    pub operation: OperationType,
    pub slot: SlotId,
}

impl WrToken {
    /// The token's `user_ctx`, for a slot below 2^32.
    pub open spec fn user_ctx(self) -> nat {
        self.connection_id as nat * 0x1_0000_0000_0000 + self.generation as nat * 0x100_0000_0000
            + self.operation.code() as nat * 0x1_0000_0000 + self.slot.position()
    }

    /// The error that encoding the token fails with, if it fails.
    pub open spec fn encode_error(self) -> Option<ErrorView> {
        if self.connection_id == 0 || self.generation == 0 {
            Some(
                ErrorView::InvalidConfiguration("connection_id and generation must be non-zero"@),
            )
        } else if self.slot.position() > u32::MAX {
            Some(ErrorView::InvalidConfiguration("slot id exceeds 32 bits"@))
        } else {
            None
        }
    }

    /// The token that a `user_ctx` stands for, where it stands for one.
    pub open spec fn of_user_ctx(value: u64) -> Self {
        WrToken {
            connection_id: (value as nat / 0x1_0000_0000_0000) as u16,
            generation: ((value as nat / 0x100_0000_0000) % 0x100) as u8,
            operation: if (value as nat / 0x1_0000_0000) % 0x100 == 1 {
                OperationType::Send
            } else {
                OperationType::Recv
            },
            slot: SlotId::at((value as nat % 0x1_0000_0000) as usize),
        }
    }

    /// The error that a `user_ctx` is refused with, if it is no token's.
    pub open spec fn decode_error(value: u64) -> Option<ErrorView> {
        let operation = (value as nat / 0x1_0000_0000) % 0x100;
        let generation = (value as nat / 0x100_0000_0000) % 0x100;
        let connection_id = value as nat / 0x1_0000_0000_0000;
        if operation != 1 && operation != 2 {
            Some(
                ErrorView::Protocol(
                    "invalid WR operation type "@ + text::decimal(operation) + ""@,
                ),
            )
        } else if connection_id == 0 || generation == 0 {
            Some(ErrorView::Protocol("CQE user_ctx has a zero identity"@))
        } else {
            None
        }
    }

    /// The token's `user_ctx`.
    pub fn encode(self) -> (encoded: Result<u64>)
        ensures
            match encoded {
                Ok(value) => self.encode_error() is None && value == self.user_ctx(),
                Err(error) => self.encode_error() == Some(error@),
            },
    {
        if self.connection_id == 0 || self.generation == 0 {
            return Err(invalid("connection_id and generation must be non-zero"));
        }
        let slot: u64 = self.slot.index() as u64;
        if slot > 0xffff_ffff {
            return Err(invalid("slot id exceeds 32 bits"));
        }
        Ok(
            self.connection_id as u64 * 0x1_0000_0000_0000 + self.generation as u64
                * 0x100_0000_0000 + self.operation.wire_value() as u64 * 0x1_0000_0000 + slot,
        )
    }

    /// The token that a `user_ctx` stands for.
    pub fn decode(value: u64) -> (decoded: Result<Self>)
        ensures
            match decoded {
                Ok(token) => {
                    &&& Self::decode_error(value) is None
                    &&& token == Self::of_user_ctx(value)
                    &&& token.encode_error() is None
                    &&& token.user_ctx() == value
                },
                Err(error) => Self::decode_error(value) == Some(error@),
            },
    {
        let connection_id: u16 = (value / 0x1_0000_0000_0000) as u16;
        let generation: u8 = ((value / 0x100_0000_0000) % 0x100) as u8;
        let operation = match OperationType::try_from(((value / 0x1_0000_0000) % 0x100) as u8) {
            Ok(operation) => operation,
            Err(error) => {
                return Err(error);
            },
        };
        if connection_id == 0 || generation == 0 {
            return Err(protocol("CQE user_ctx has a zero identity"));
        }
        Ok(
            WrToken {
                connection_id,
                generation,
                operation,
                slot: SlotId::from_index((value % 0x1_0000_0000) as usize),
            },
        )
    }
}

/// Decoding the `user_ctx` of a token gives that token: the `user_ctx` of every encodable token is
/// accepted, and no two encodable tokens share one.
pub proof fn wr_token_round_trip(token: WrToken, other: WrToken)
    requires
        token.encode_error() is None,
        other.encode_error() is None,
    ensures
        token.user_ctx() <= u64::MAX,
        WrToken::decode_error(token.user_ctx() as u64) is None,
        WrToken::of_user_ctx(token.user_ctx() as u64) == token,
        token.user_ctx() == other.user_ctx() ==> token == other,
{
    token.slot.lemma_position();
    other.slot.lemma_position();
    lemma_fields(
        token.connection_id as int,
        token.generation as int,
        token.operation.code() as int,
        token.slot.position() as int,
    );
    lemma_fields(
        other.connection_id as int,
        other.generation as int,
        other.operation.code() as int,
        other.slot.position() as int,
    );
}

proof fn lemma_fields(connection: int, generation: int, operation: int, slot: int)
    requires
        0 <= connection < 0x1_0000,
        0 <= generation < 0x100,
        0 <= operation < 0x100,
        0 <= slot < 0x1_0000_0000,
    ensures
        ({
            let value = connection * 0x1_0000_0000_0000 + generation * 0x100_0000_0000 + operation
                * 0x1_0000_0000 + slot;
            &&& 0 <= value <= u64::MAX
            &&& value / 0x1_0000_0000_0000 == connection
            &&& (value / 0x100_0000_0000) % 0x100 == generation
            &&& (value / 0x1_0000_0000) % 0x100 == operation
            &&& value % 0x1_0000_0000 == slot
        }),
{
    let value = connection * 0x1_0000_0000_0000 + generation * 0x100_0000_0000 + operation
        * 0x1_0000_0000 + slot;
    let above_slot = connection * 0x1_0000 + generation * 0x100 + operation;
    let above_operation = connection * 0x100 + generation;
    vstd::arithmetic::div_mod::lemma_fundamental_div_mod_converse(
        value,
        0x1_0000_0000,
        above_slot,
        slot,
    );
    vstd::arithmetic::div_mod::lemma_fundamental_div_mod_converse(
        above_slot,
        0x100,
        above_operation,
        operation,
    );
    vstd::arithmetic::div_mod::lemma_fundamental_div_mod_converse(
        above_operation,
        0x100,
        connection,
        generation,
    );
    vstd::arithmetic::div_mod::lemma_div_denominator(value, 0x1_0000_0000, 0x100);
    vstd::arithmetic::div_mod::lemma_div_denominator(value, 0x100_0000_0000, 0x100);
}

/// How many receives are posted, and whether any ever was.
pub struct ReceiveCredit {
    posted: usize,
    ever_posted: bool,
}

impl ReceiveCredit {
    /// How many receives are posted.
    pub closed spec fn count(self) -> nat {
        self.posted as nat
    }

    /// Whether a receive was ever posted.
    pub closed spec fn started(self) -> bool {
        self.ever_posted
    }

    /// Counts a posted receive.
    pub fn posted(&mut self)
        ensures
            final(self).count() == if old(self).count() < usize::MAX {
                old(self).count() + 1
            } else {
                usize::MAX as nat
            },
            final(self).started(),
    {
        self.posted = self.posted.saturating_add(1);
        self.ever_posted = true;
    }

    /// Counts a completed receive.
    pub fn completed(&mut self)
        ensures
            final(self).count() == if old(self).count() == 0 {
                0
            } else {
                (old(self).count() - 1) as nat
            },
            final(self).started() == old(self).started(),
    {
        self.posted = self.posted.saturating_sub(1);
    }

    /// Refuses a SEND before the first receive was posted.
    pub fn require_before_send(&self) -> (allowed: Result<()>)
        ensures
            match allowed {
                Ok(()) => self.started(),
                Err(error) => {
                    &&& !self.started()
                    &&& error@ == ErrorView::Protocol(
                        "SEND is forbidden before at least one RECV is posted"@,
                    )
                },
            },
    {
        if !self.ever_posted {
            Err(protocol("SEND is forbidden before at least one RECV is posted"))
        } else {
            Ok(())
        }
    }

    /// How many receives are posted.
    pub fn current(&self) -> (count: usize)
        ensures
            count == self.count(),
    {
        self.posted
    }
}

impl Default for ReceiveCredit {
    fn default() -> (credit: Self)
        ensures
            credit.count() == 0,
            !credit.started(),
    {
        ReceiveCredit { posted: 0, ever_posted: false }
    }
}

} // verus!
