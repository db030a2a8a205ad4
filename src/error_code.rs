//! The protocol's error codes.
use vstd::prelude::*;

verus! {

/// The error codes that a broker puts in a response. Code 13 is not assigned.
#[derive(PartialEq, Eq, Structural, Clone, Copy, Debug)]
pub enum Error {
    Unknown,
    NoError,
    OffsetOutOfRange,
    InvalidMessage,
    UnknownTopicOrPartition,
    InvalidMessageSize,
    LeaderNotAvailable,
    NotLeaderForPartition,
    RequestTimedOut,
    BrokerNotAvailable,
    ReplicaNotAvailable,
    MessageSizeTooLarge,
    StaleControllerEpochCode,
    OffsetMetadataTooLargeCode,
    OffsetsLoadInProgressCode,
    ConsumerCoordinatorNotAvailableCode,
    NotCoordinatorForConsumerCode,
}

/// The wire code of each error.
pub open spec fn error_code(e: Error) -> int {
    match e {
        Error::Unknown => -1,
        Error::NoError => 0,
        Error::OffsetOutOfRange => 1,
        Error::InvalidMessage => 2,
        Error::UnknownTopicOrPartition => 3,
        Error::InvalidMessageSize => 4,
        Error::LeaderNotAvailable => 5,
        Error::NotLeaderForPartition => 6,
        Error::RequestTimedOut => 7,
        Error::BrokerNotAvailable => 8,
        Error::ReplicaNotAvailable => 9,
        Error::MessageSizeTooLarge => 10,
        Error::StaleControllerEpochCode => 11,
        Error::OffsetMetadataTooLargeCode => 12,
        Error::OffsetsLoadInProgressCode => 14,
        Error::ConsumerCoordinatorNotAvailableCode => 15,
        Error::NotCoordinatorForConsumerCode => 16,
    }
}

/// The error whose code is `n`, if one has it.
pub open spec fn error_for_code(n: int) -> Option<Error> {
    if n == -1 {
        Some(Error::Unknown)
    } else if n == 0 {
        Some(Error::NoError)
    } else if n == 1 {
        Some(Error::OffsetOutOfRange)
    } else if n == 2 {
        Some(Error::InvalidMessage)
    } else if n == 3 {
        Some(Error::UnknownTopicOrPartition)
    } else if n == 4 {
        Some(Error::InvalidMessageSize)
    } else if n == 5 {
        Some(Error::LeaderNotAvailable)
    } else if n == 6 {
        Some(Error::NotLeaderForPartition)
    } else if n == 7 {
        Some(Error::RequestTimedOut)
    } else if n == 8 {
        Some(Error::BrokerNotAvailable)
    } else if n == 9 {
        Some(Error::ReplicaNotAvailable)
    } else if n == 10 {
        Some(Error::MessageSizeTooLarge)
    } else if n == 11 {
        Some(Error::StaleControllerEpochCode)
    } else if n == 12 {
        Some(Error::OffsetMetadataTooLargeCode)
    } else if n == 14 {
        Some(Error::OffsetsLoadInProgressCode)
    } else if n == 15 {
        Some(Error::ConsumerCoordinatorNotAvailableCode)
    } else if n == 16 {
        Some(Error::NotCoordinatorForConsumerCode)
    } else {
        None
    }
}

/// Resolving a code and taking the code of an error are inverse: every error resolves
/// from its own code, and a code resolves only to the error that has it.
pub proof fn error_code_table_inverse(e: Error, n: int)
    ensures
        error_for_code(error_code(e)) == Some(e),
        error_for_code(n) == Some(e) ==> error_code(e) == n,
        error_for_code(n) is None <==> forall|x: Error| error_code(x) != n,
{
    if error_for_code(n) is None {
        assert forall|x: Error| error_code(x) != n by {
        }
    } else {
        assert(error_code(error_for_code(n)->Some_0) == n);
    }
}

impl Error {
    /// The error with code `n`, or `None` where no error has that code.
    pub fn from_i64(n: i64) -> (r: Option<Error>)
        ensures
            r == error_for_code(n as int),
    {
        match n {
            -1 => Some(Error::Unknown),
            0 => Some(Error::NoError),
            1 => Some(Error::OffsetOutOfRange),
            2 => Some(Error::InvalidMessage),
            3 => Some(Error::UnknownTopicOrPartition),
            4 => Some(Error::InvalidMessageSize),
            5 => Some(Error::LeaderNotAvailable),
            6 => Some(Error::NotLeaderForPartition),
            7 => Some(Error::RequestTimedOut),
            8 => Some(Error::BrokerNotAvailable),
            9 => Some(Error::ReplicaNotAvailable),
            10 => Some(Error::MessageSizeTooLarge),
            11 => Some(Error::StaleControllerEpochCode),
            12 => Some(Error::OffsetMetadataTooLargeCode),
            14 => Some(Error::OffsetsLoadInProgressCode),
            15 => Some(Error::ConsumerCoordinatorNotAvailableCode),
            16 => Some(Error::NotCoordinatorForConsumerCode),
            _ => None,
        }
    }

    /// The wire code of this error.
    pub fn code(&self) -> (r: i16)
        ensures
            r == error_code(*self),
    {
        match self {
            Error::Unknown => -1,
            Error::NoError => 0,
            Error::OffsetOutOfRange => 1,
            Error::InvalidMessage => 2,
            Error::UnknownTopicOrPartition => 3,
            Error::InvalidMessageSize => 4,
            Error::LeaderNotAvailable => 5,
            Error::NotLeaderForPartition => 6,
            Error::RequestTimedOut => 7,
            Error::BrokerNotAvailable => 8,
            Error::ReplicaNotAvailable => 9,
            Error::MessageSizeTooLarge => 10,
            Error::StaleControllerEpochCode => 11,
            Error::OffsetMetadataTooLargeCode => 12,
            Error::OffsetsLoadInProgressCode => 14,
            Error::ConsumerCoordinatorNotAvailableCode => 15,
            Error::NotCoordinatorForConsumerCode => 16,
        }
    }
}

} // verus!
