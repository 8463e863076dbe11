use vstd::prelude::*;
use vstd::slice::slice_subrange;
use vstd::utf8::{decode_utf8, valid_utf8};

use crate::utf8::str_from_utf8;

verus! {

/// How long, in milliseconds, a poll waits for response data.
pub const POLL_TIMEOUT_MS: u64 = 10;

/// Size of the response buffer.
pub const RESPONSE_BUFFER_SIZE: usize = 512;

/// How long, in milliseconds, the client waits after its connection ended or failed
/// before it connects again and sends its request once more.
pub const RETRY_DELAY_MS: u64 = 5000;

/// What the client does on its next poll.
#[derive(Clone, Copy, Debug, PartialEq, Eq, Structural)]
pub enum ClientAction {
    /// Read the response from the open connection.
    Read,
    /// Connect again and resend the request.
    Reconnect,
    /// Nothing until the retry delay has passed.
    Wait,
}

/// What a read of the socket, bounded by the poll timeout, gave.
#[derive(Clone, Copy, Debug, PartialEq, Eq, Structural)]
pub enum TcpReadOutcome {
    /// Nothing arrived before the timeout.
    TimedOut,
    /// The peer closed the connection (a read of 0 bytes).
    Closed,
    /// This many bytes arrived at the front of the response buffer.
    Received(usize),
    /// The read failed.
    Failed,
}

/// What a poll reports.
#[derive(Debug)]
pub enum PollReport {
    /// Not connected: nothing was read.
    NotConnected,
    /// Nothing arrived in time.
    Idle,
    /// The peer closed the connection.
    ConnectionClosed,
    /// Response text arrived.
    Text(String),
    /// Bytes arrived that are not UTF-8.
    NonUtf8,
    /// The read failed.
    ReadFailed,
}

/// The connection state of the HTTP client, and when (in milliseconds) it last lost
/// or failed to make its connection.
pub struct HttpClientState {
    connected: bool,
    disconnected_at_ms: u64,
}

impl HttpClientState {
    pub closed spec fn spec_connected(self) -> bool {
        self.connected
    }

    pub closed spec fn spec_disconnected_at(self) -> u64 {
        self.disconnected_at_ms
    }

    /// The client after connecting and sending its request at `now_ms`: connected
    /// exactly when the connection was made, reached the established state and the
    /// request was written; otherwise the failure dates from `now_ms`.
    pub fn after_connect(connected: bool, established: bool, request_written: bool, now_ms: u64) -> (r: Self)
        ensures
            r.spec_connected() == (connected && established && request_written),
            !r.spec_connected() ==> r.spec_disconnected_at() == now_ms,
    {
        HttpClientState { connected: connected && established && request_written, disconnected_at_ms: now_ms }
    }

    /// What to do at `now_ms`: read while connected; once the retry delay has passed
    /// since the connection was lost, connect again; wait before that.
    pub fn next_action(&self, now_ms: u64) -> (r: ClientAction)
        ensures
            self.spec_connected() ==> r == ClientAction::Read,
            !self.spec_connected() && now_ms >= self.spec_disconnected_at() + RETRY_DELAY_MS ==> r
                == ClientAction::Reconnect,
            !self.spec_connected() && now_ms < self.spec_disconnected_at() + RETRY_DELAY_MS ==> r
                == ClientAction::Wait,
    {
        if self.connected {
            ClientAction::Read
        } else if now_ms >= self.disconnected_at_ms && now_ms - self.disconnected_at_ms >= RETRY_DELAY_MS {
            ClientAction::Reconnect
        } else {
            ClientAction::Wait
        }
    }

    /// Whether the client still reads responses; a poll only reads the socket then.
    pub fn is_connected(&self) -> (r: bool)
        ensures
            r == self.spec_connected(),
    {
        self.connected
    }

    /// Handles the outcome of a poll's read into `buffer` at `now_ms`: a close or a
    /// failed read ends the connection, dating the loss from `now_ms`; received bytes
    /// are reported as text when they are UTF-8.
    pub fn on_read(&mut self, outcome: TcpReadOutcome, buffer: &[u8], now_ms: u64) -> (r: PollReport)
        requires
            outcome matches TcpReadOutcome::Received(n) ==> 0 < n <= buffer@.len(),
        ensures
            !old(self).spec_connected() ==> r is NotConnected && *final(self) == *old(self),
            old(self).spec_connected() ==> match outcome {
                TcpReadOutcome::TimedOut => r is Idle && *final(self) == *old(self),
                TcpReadOutcome::Closed => r is ConnectionClosed && !final(self).spec_connected()
                    && final(self).spec_disconnected_at() == now_ms,
                TcpReadOutcome::Failed => r is ReadFailed && !final(self).spec_connected()
                    && final(self).spec_disconnected_at() == now_ms,
                TcpReadOutcome::Received(n) => {
                    &&& *final(self) == *old(self)
                    &&& valid_utf8(buffer@.subrange(0, n as int)) ==> (r matches PollReport::Text(t)
                        && t@ == decode_utf8(buffer@.subrange(0, n as int)))
                    &&& !valid_utf8(buffer@.subrange(0, n as int)) ==> r is NonUtf8
                },
            },
    {
        if !self.connected {
            return PollReport::NotConnected;
        }
        match outcome {
            TcpReadOutcome::TimedOut => PollReport::Idle,
            TcpReadOutcome::Closed => {
                self.connected = false;
                self.disconnected_at_ms = now_ms;
                PollReport::ConnectionClosed
            },
            TcpReadOutcome::Failed => {
                self.connected = false;
                self.disconnected_at_ms = now_ms;
                PollReport::ReadFailed
            },
            TcpReadOutcome::Received(size) => {
                let data = slice_subrange(buffer, 0, size);
                match str_from_utf8(data) {
                    Some(text) => PollReport::Text(text.to_owned()),
                    None => PollReport::NonUtf8,
                }
            },
        }
    }
}

} // verus!
