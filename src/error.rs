use vstd::prelude::*;

verus! {

/// Why a ledger operation was refused. A refused operation changes nothing.
#[derive(Clone, Copy, Debug, PartialEq, Eq, Structural)]
pub enum StreamError {
    /// The time given is earlier than a time the ledger has already seen.
    ClockWentBackwards,
    /// The fee configuration is not a valid basis-point rate.
    InvalidFeeRate,
    /// The new fee rate is above the configured maximum.
    FeeRateAboveMax,
    /// The caller is not the owner of the ledger.
    NotOwner,
    /// The caller is not the manager of the ledger.
    NotManager,
    /// The caller is not the fee receiver.
    NotFeeReceiver,
    /// Sender and receiver are the same account.
    SameSenderAndReceiver,
    /// The start time lies in the past.
    StartInPast,
    /// The end time lies before the start time.
    EndBeforeStart,
    /// The start time is not before the end time.
    StartNotBeforeEnd,
    /// The rate is zero.
    ZeroRate,
    /// The rate is not below the rate ceiling.
    RateTooHigh,
    /// An amount does not fit in 128 bits.
    AmountOverflow,
    /// The deposit differs from the amount the stream needs.
    DepositMismatch,
    /// The deposit does not cover the amount the updated stream needs.
    InsufficientDeposit,
    /// An update that needs no top-up must carry exactly one unit.
    OneUnitRequired,
    /// All stream identifiers have been assigned.
    IdsExhausted,
    /// No stream has this identifier.
    StreamNotFound,
    /// The operation applies to native-asset streams only.
    NotNative,
    /// A transfer of this stream is in flight; retry later.
    Locked,
    /// The caller may not perform this operation on this stream.
    Unauthorized,
    /// The stream was created without the capability to be updated.
    CannotUpdate,
    /// The stream was created without the capability to be cancelled.
    CannotCancel,
    /// The stream has been cancelled.
    AlreadyCancelled,
    /// The stream has not been cancelled.
    NotCancelled,
    /// The stream has already started.
    AlreadyStarted,
    /// The stream has not started yet.
    NotStarted,
    /// The stream has not ended yet.
    NotEnded,
    /// The stream has already ended.
    AlreadyEnded,
    /// The stream holds no balance.
    NoBalance,
    /// Everything the caller could take has been taken already.
    AlreadyWithdrawn,
    /// Nothing has accrued since the last withdrawal.
    NothingToWithdraw,
    /// The stream is paused already.
    AlreadyPaused,
    /// The stream is not paused.
    NotPaused,
    /// A stream can be paused only after it starts and before it ends.
    OutsidePauseWindow,
    /// No transfer of this kind is in flight for the stream.
    NoPendingTransfer,
    /// The token is not on the list of accepted tokens.
    TokenNotAccepted,
    /// The token is not on the list, so it cannot be removed.
    TokenNotListed,
    /// The stream has not ended, or still holds a balance.
    NotRemovable,
    /// The account has made no storage deposit.
    NotRegistered,
    /// A storage deposit of nothing.
    NoDeposit,
    /// A first storage deposit below the minimum.
    DepositBelowMinimum,
    /// More than the available storage deposit was asked for.
    ExceedsAvailable,
    /// Forced unregistration is not supported.
    ForceUnregister,
    /// The available storage deposit does not pay for the storage used.
    InsufficientStorage,
}

} // verus!
