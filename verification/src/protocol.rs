//! The text protocol between a remote socket and its clients.
//!
//! A client sends one command per line (`ON`, `OFF`, `STATE`, `POWER`); the
//! socket answers one line: `OK`, `ON`/`OFF`, the power in watts with three
//! decimals, or `ERR ...`.  Here are both ends: what the socket simulator
//! answers and how its state changes, and what a client makes of a reply.
use vstd::prelude::*;

use crate::error::SmartHomeError;
use crate::text::{
    abs, digit_char, digit_val, is_digit, is_space, lemma_digit_char, lemma_nat_text, lemma_trim_line, nat_text, push_three_decimal,
    sign_text, str_eq, three_decimal_text, trim, trim_str,
};

verus! {

/// The state of a simulated socket.
#[derive(Debug, Clone, Copy, PartialEq, Eq)]
pub struct SocketSimState {
    pub is_on: bool,
    /// Rated power in milliwatts.
    pub power_milliwatts: i64,
}

impl SocketSimState {
    /// A simulated socket as it starts: off, rated at 1500 W.
    pub fn initial() -> (r: Self)
        ensures
            !r.is_on,
            r.power_milliwatts == 1_500_000,
    {
        SocketSimState { is_on: false, power_milliwatts: 1_500_000 }
    }
}

/// What the simulator answers to the (trimmed) command line `cmd`.
pub open spec fn sim_reply(cmd: Seq<char>, s: SocketSimState) -> Seq<char> {
    if cmd == "ON"@ || cmd == "OFF"@ {
        "OK\n"@
    } else if cmd == "STATE"@ {
        if s.is_on { "ON\n"@ } else { "OFF\n"@ }
    } else if cmd == "POWER"@ {
        three_decimal_text(if s.is_on { s.power_milliwatts as int } else { 0 }) + "\n"@
    } else {
        "ERR unknown command: "@ + cmd + "\n"@
    }
}

/// The simulator's state after the command line `cmd`.
pub open spec fn sim_next(cmd: Seq<char>, s: SocketSimState) -> SocketSimState {
    if cmd == "ON"@ {
        SocketSimState { is_on: true, ..s }
    } else if cmd == "OFF"@ {
        SocketSimState { is_on: false, ..s }
    } else {
        s
    }
}

/// Runs the (trimmed) command line `cmd` on the simulated socket and gives
/// the reply line.
pub fn process_command(cmd: &str, state: &mut SocketSimState) -> (r: String)
    ensures
        r@ == sim_reply(cmd@, *old(state)),
        *final(state) == sim_next(cmd@, *old(state)),
{
    proof {
        reveal_strlit("ON");
        reveal_strlit("OFF");
        reveal_strlit("STATE");
        reveal_strlit("POWER");
    }
    let mut out = String::new();
    if str_eq(cmd, "ON") {
        state.is_on = true;
        out.append("OK\n");
    } else if str_eq(cmd, "OFF") {
        state.is_on = false;
        out.append("OK\n");
    } else if str_eq(cmd, "STATE") {
        if state.is_on {
            out.append("ON\n");
        } else {
            out.append("OFF\n");
        }
    } else if str_eq(cmd, "POWER") {
        let p: i64 = if state.is_on { state.power_milliwatts } else { 0 };
        push_three_decimal(&mut out, p);
        out.append("\n");
    } else {
        out.append("ERR unknown command: ");
        out.append(cmd);
        out.append("\n");
    }
    assert(out@ =~= sim_reply(cmd@, *old(state)));
    out
}

/// What a client makes of the reply to `ON` or `OFF`: success when the
/// trimmed reply is `OK`, else an error holding the reply.
pub open spec fn switch_outcome(reply: Result<String, SmartHomeError>) -> Result<(), SmartHomeError> {
    match reply {
        Err(e) => Err(e),
        Ok(text) => if trim(text@) == "OK"@ { Ok(()) } else { Err(SmartHomeError::NetworkError(text)) },
    }
}

/// The reply to `ON` or `OFF`: success when it reads `OK`.
pub fn switch_reply(reply: Result<String, SmartHomeError>) -> (r: Result<(), SmartHomeError>)
    ensures
        r == switch_outcome(reply),
{
    proof { reveal_strlit("OK"); }
    match reply {
        Err(e) => Err(e),
        Ok(text) => {
            if str_eq(trim_str(text.as_str()), "OK") {
                Ok(())
            } else {
                Err(SmartHomeError::NetworkError(text))
            }
        },
    }
}

/// The reply to `STATE`: `ON` or `OFF`, else an error naming the reply.
pub fn state_reply(reply: Result<String, SmartHomeError>) -> (r: Result<bool, SmartHomeError>)
    ensures
        reply matches Err(e) ==> r == Err::<bool, SmartHomeError>(e),
        reply matches Ok(text) ==> {
            let t = trim(text@);
            &&& t == "ON"@ ==> r == Ok::<bool, SmartHomeError>(true)
            &&& t == "OFF"@ ==> r == Ok::<bool, SmartHomeError>(false)
            &&& t != "ON"@ && t != "OFF"@ ==> (r matches Err(SmartHomeError::NetworkError(m)) && m@ == "Неожиданный ответ: "@ + t)
        },
{
    proof {
        reveal_strlit("ON");
        reveal_strlit("OFF");
        assert("ON"@.len() != "OFF"@.len());
    }
    match reply {
        Err(e) => Err(e),
        Ok(text) => {
            let t = trim_str(text.as_str());
            if str_eq(t, "ON") {
                Ok(true)
            } else if str_eq(t, "OFF") {
                Ok(false)
            } else {
                let mut m = String::new();
                m.append("Неожиданный ответ: ");
                m.append(t);
                Err(SmartHomeError::NetworkError(m))
            }
        },
    }
}

/// The reply to `POWER`, once its trimmed text has been read as a number
/// of watts and converted to milliwatts (`reading`: that value, or the
/// message of why the text is no number; reading a floating-point number
/// is left to the caller).  A failed exchange stays the error; a text that
/// is no number becomes a network error with the message.
pub fn power_reply(reading: Result<Result<i64, String>, SmartHomeError>) -> (r: Result<i64, SmartHomeError>)
    ensures
        reading matches Err(e) ==> r == Err::<i64, SmartHomeError>(e),
        reading matches Ok(Ok(v)) ==> r == Ok::<i64, SmartHomeError>(v),
        reading matches Ok(Err(m)) ==> r == Err::<i64, SmartHomeError>(SmartHomeError::NetworkError(m)),
{
    match reading {
        Err(e) => Err(e),
        Ok(Ok(v)) => Ok(v),
        Ok(Err(m)) => Err(SmartHomeError::NetworkError(m)),
    }
}

/// Collects the bytes read from a connection and hands out whole lines.
pub struct LineBuffer {
    buf: Vec<u8>,
}

impl LineBuffer {
    /// The bytes held, not yet handed out.
    pub closed spec fn pending(&self) -> Seq<u8> {
        self.buf@
    }

    /// An empty buffer.
    pub fn new() -> (r: Self)
        ensures
            r.pending() == Seq::<u8>::empty(),
    {
        LineBuffer { buf: Vec::new() }
    }

    /// Appends bytes read from the connection.
    pub fn push_bytes(&mut self, bytes: &[u8])
        ensures
            final(self).pending() == old(self).pending() + bytes@,
    {
        let n = bytes.len();
        let mut i: usize = 0;
        let ghost start = self.buf@;
        while i < n
            invariant
                n == bytes@.len(),
                i <= n,
                self.buf@ == start + bytes@.take(i as int),
            decreases n - i,
        {
            self.buf.push(bytes[i]);
            assert(bytes@.take(i + 1) =~= bytes@.take(i as int).push(bytes@[i as int]));
            i = i + 1;
        }
        assert(bytes@.take(n as int) =~= bytes@);
    }

    /// The first line held, with its line end, taken out of the buffer; none
    /// while no line end has arrived.
    pub fn take_line(&mut self) -> (r: Option<Vec<u8>>)
        ensures
            match r {
                None => {
                    &&& !old(self).pending().contains(10u8)
                    &&& final(self).pending() == old(self).pending()
                },
                Some(line) => {
                    &&& line@.len() > 0
                    &&& line@.last() == 10u8
                    &&& !line@.drop_last().contains(10u8)
                    &&& old(self).pending() == line@ + final(self).pending()
                },
            },
    {
        let n = self.buf.len();
        let mut pos: usize = 0;
        while pos < n && self.buf[pos] != 10u8
            invariant
                n == self.buf@.len(),
                pos <= n,
                forall|k: int| 0 <= k < pos ==> self.buf@[k] != 10u8,
            decreases n - pos,
        {
            pos = pos + 1;
        }
        if pos == n {
            return None;
        }
        let mut line: Vec<u8> = Vec::new();
        let mut rest: Vec<u8> = Vec::new();
        let mut i: usize = 0;
        while i < n
            invariant
                n == self.buf@.len(),
                pos < n,
                i <= n,
                line@ == self.buf@.take(if i <= pos + 1 { i as int } else { pos + 1 }),
                rest@ == (if i <= pos + 1 { Seq::<u8>::empty() } else { self.buf@.subrange(pos + 1, i as int) }),
            decreases n - i,
        {
            if i <= pos {
                line.push(self.buf[i]);
                assert(self.buf@.take(i + 1) =~= self.buf@.take(i as int).push(self.buf@[i as int]));
            } else {
                rest.push(self.buf[i]);
                assert(self.buf@.subrange(pos + 1, i + 1) =~= (if i <= pos + 1 { Seq::<u8>::empty() } else { self.buf@.subrange(pos + 1, i as int) }).push(self.buf@[i as int]));
            }
            i = i + 1;
        }
        let ghost old_buf = self.buf@;
        assert(line@.drop_last() =~= old_buf.take(pos as int));
        assert(old_buf =~= line@ + rest@);
        self.buf = rest;
        Some(line)
    }
}

/// The four command words are distinct.
proof fn lemma_commands_distinct()
    ensures
        "ON"@ != "OFF"@,
        "ON"@ != "STATE"@,
        "ON"@ != "POWER"@,
        "OFF"@ != "STATE"@,
        "OFF"@ != "POWER"@,
        "STATE"@ != "POWER"@,
{
    reveal_strlit("ON");
    reveal_strlit("OFF");
    reveal_strlit("STATE");
    reveal_strlit("POWER");
    assert("ON"@.len() == 2);
    assert("OFF"@.len() == 3);
    assert("STATE"@.len() == 5);
    assert("POWER"@.len() == 5);
    assert("STATE"@[0] != "POWER"@[0]);
}

/// Whatever state the simulated socket is in, its reply to `STATE`,
/// trimmed, names that state, and the state stays.
pub proof fn law_state_reply_reads_simulator(s: SocketSimState)
    ensures
        trim(sim_reply("STATE"@, s)) == (if s.is_on { "ON"@ } else { "OFF"@ }),
        sim_next("STATE"@, s) == s,
{
    lemma_commands_distinct();
    reveal_strlit("STATE");
    reveal_strlit("ON");
    reveal_strlit("OFF");
    reveal_strlit("ON\n");
    reveal_strlit("OFF\n");
    reveal_strlit("OK\n");
    reveal_strlit("\n");
    if s.is_on {
        lemma_trim_line("ON"@);
        assert("ON\n"@ =~= "ON"@ + "\n"@);
    } else {
        lemma_trim_line("OFF"@);
        assert("OFF\n"@ =~= "OFF"@ + "\n"@);
    }
}

/// Whatever state the simulated socket is in, its reply to `POWER`,
/// trimmed, is the power it draws (its rated power when on, nothing when
/// off) written with three decimals, and the state stays.
pub proof fn law_power_reply_reads_simulator(s: SocketSimState)
    ensures
        trim(sim_reply("POWER"@, s)) == three_decimal_text(if s.is_on { s.power_milliwatts as int } else { 0 }),
        sim_next("POWER"@, s) == s,
{
    lemma_commands_distinct();
    let p: i64 = if s.is_on { s.power_milliwatts } else { 0 };
    let x = three_decimal_text(p as int);
    let a = abs(p as int);
    lemma_nat_text(a / 1000);
    lemma_digit_char((a % 10) as int);
    lemma_digit_char(((a % 1000) / 100) as int);
    lemma_digit_char(((a % 100) / 10) as int);
    assert(x.last() == digit_char((a % 10) as int));
    if p < 0 {
        assert(x[0] == '-');
    } else {
        assert(sign_text(p as int) =~= Seq::<char>::empty());
        assert(x[0] == nat_text(a / 1000)[0]);
        lemma_digit_char(digit_val(nat_text(a / 1000)[0]));
        assert(is_digit(nat_text(a / 1000)[0]));
    }
    lemma_trim_line(x);
}

/// Whatever state the simulated socket is in, `ON` (or `OFF`) is answered
/// with `OK` and leaves it on (or off), its power rating unchanged.
pub proof fn law_switch_acknowledged(s: SocketSimState, on: bool)
    ensures
        ({
            let cmd = if on { "ON"@ } else { "OFF"@ };
            &&& trim(sim_reply(cmd, s)) == "OK"@
            &&& sim_next(cmd, s).is_on == on
            &&& sim_next(cmd, s).power_milliwatts == s.power_milliwatts
        }),
{
    lemma_commands_distinct();
    reveal_strlit("ON");
    reveal_strlit("OFF");
    reveal_strlit("OK");
    reveal_strlit("OK\n");
    reveal_strlit("\n");
    lemma_trim_line("OK"@);
    assert("OK\n"@ =~= "OK"@ + "\n"@);
}

/// A client that switches the simulated socket on (or off) and then asks
/// `STATE` reads back what it set, whatever state the socket was in.
pub proof fn law_switch_then_state(s: SocketSimState, on: bool)
    ensures
        ({
            let cmd = if on { "ON"@ } else { "OFF"@ };
            trim(sim_reply("STATE"@, sim_next(cmd, s))) == (if on { "ON"@ } else { "OFF"@ })
        }),
{
    law_switch_acknowledged(s, on);
    let cmd = if on { "ON"@ } else { "OFF"@ };
    law_state_reply_reads_simulator(sim_next(cmd, s));
}

/// The replies to a client's (trimmed) command lines, one per line in
/// order, and the simulator's state after them.
pub open spec fn sim_session(cmds: Seq<Seq<char>>, s: SocketSimState) -> (Seq<Seq<char>>, SocketSimState)
    decreases cmds.len(),
{
    if cmds.len() == 0 {
        (Seq::empty(), s)
    } else {
        let (replies, mid) = sim_session(cmds.drop_last(), s);
        (replies.push(sim_reply(cmds.last(), mid)), sim_next(cmds.last(), mid))
    }
}

/// Over any session the simulator answers each line once, keeps its power
/// rating, and is on exactly when the last `ON` or `OFF` line was `ON`
/// (as it started where there was none).
pub proof fn law_session(cmds: Seq<Seq<char>>, s: SocketSimState)
    ensures
        sim_session(cmds, s).0.len() == cmds.len(),
        sim_session(cmds, s).1.power_milliwatts == s.power_milliwatts,
        sim_session(cmds, s).1.is_on == last_switch(cmds, s.is_on),
    decreases cmds.len(),
{
    if cmds.len() > 0 {
        law_session(cmds.drop_last(), s);
    }
}

/// Whether the last `ON` or `OFF` among `cmds` was `ON`; `start` where
/// there is none.
pub open spec fn last_switch(cmds: Seq<Seq<char>>, start: bool) -> bool
    decreases cmds.len(),
{
    if cmds.len() == 0 {
        start
    } else if cmds.last() == "ON"@ {
        true
    } else if cmds.last() == "OFF"@ {
        false
    } else {
        last_switch(cmds.drop_last(), start)
    }
}

} // verus!
