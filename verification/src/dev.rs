use vstd::prelude::*;

use crate::text::{
    concat, lines, lines_of, parse_unsigned, parse_unsigned_exec, trim, trimmed, u64_to_decimal,
    decimal, views,
};

verus! {

/// The djb2 hash (start at 5381, then `h * 33 + byte` for each byte), kept to 32 bits.
pub open spec fn djb2(bytes: Seq<u8>) -> nat
    decreases bytes.len(),
{
    if bytes.len() == 0 {
        5381
    } else {
        ((djb2(bytes.drop_last()) * 33 + bytes.last()) % 0x1_0000_0000) as nat
    }
}

/// The port that a branch's development server listens on.
pub open spec fn port_of(branch: Seq<char>) -> int {
    10000 + (djb2(vstd::utf8::encode_utf8(branch)) % 10000) as int
}

/// A stable port in 10000..=19999 derived from the branch name.
pub fn dev_port(branch: &str) -> (port: u16)
    ensures
        port as int == port_of(branch@),
        10000 <= port <= 19999,
{
    let bytes = branch.as_bytes();
    let mut hash: u64 = 5381;
    let n = bytes.len();
    proof {
        assert(bytes@.take(0) =~= Seq::<u8>::empty());
    }
    for i in 0..n
        invariant
            n == bytes@.len(),
            bytes@ == vstd::utf8::encode_utf8(branch@),
            hash as nat == djb2(bytes@.take(i as int)),
            hash < 0x1_0000_0000,
    {
        proof {
            assert(bytes@.take(i + 1).drop_last() =~= bytes@.take(i as int));
            assert(bytes@.take(i + 1).last() == bytes@[i as int]);
        }
        hash = (hash * 33 + bytes[i] as u64) % 0x1_0000_0000;
    }
    proof {
        assert(bytes@.take(n as int) =~= bytes@);
    }
    (10000 + hash % 10000) as u16
}

/// The numbers that the lines of `output` hold, one per line, white space
/// around them ignored; lines that are not a `u32` are skipped.
pub open spec fn pids_in(ls: Seq<Seq<char>>) -> Seq<u32>
    decreases ls.len(),
{
    if ls.len() == 0 {
        Seq::empty()
    } else {
        let rest = pids_in(ls.drop_last());
        match parse_unsigned(trim(ls.last()), u32::MAX as nat) {
            Some(v) => rest.push(v as u32),
            None => rest,
        }
    }
}

/// The process ids in `lsof -t` output, one per line; other lines are skipped.
pub fn parse_pid_lines(output: &str) -> (pids: Vec<u32>)
    ensures
        pids@ == pids_in(lines(output@)),
{
    let ls = lines_of(output);
    let n = ls.len();
    let mut pids: Vec<u32> = Vec::new();
    proof {
        assert(views(ls@).take(0) =~= Seq::<Seq<char>>::empty());
    }
    for i in 0..n
        invariant
            n == ls@.len(),
            views(ls@) == lines(output@),
            pids@ == pids_in(views(ls@).take(i as int)),
    {
        proof {
            assert(views(ls@).take(i + 1).drop_last() =~= views(ls@).take(i as int));
            assert(views(ls@).take(i + 1).last() == ls@[i as int]@);
        }
        let t = trimmed(ls[i].as_str());
        match parse_unsigned_exec(t.as_str(), 0xFFFF_FFFF) {
            Some(v) => {
                pids.push(v as u32);
            },
            None => {},
        }
    }
    proof {
        assert(views(ls@).take(n as int) =~= views(ls@));
    }
    pids
}

/// What `lsof` reported for a port: the ids it printed when it succeeded,
/// none when it exited with status 1 (nothing listens), and otherwise an
/// error naming the port and quoting its error output.
pub fn listener_pids_from(port: u16, success: bool, exit_code: Option<i32>, stdout: &str, stderr: &str)
    -> (r: Result<Vec<u32>, String>)
    ensures
        success ==> (r matches Ok(p) && p@ == pids_in(lines(stdout@))),
        !success && exit_code == Some(1i32) ==> (r matches Ok(p) && p@.len() == 0),
        !success && exit_code != Some(1i32) ==> (r matches Err(m) && m@ == "failed to query TCP port "@
            + decimal(port as nat) + ": "@ + trim(stderr@)),
{
    if success {
        return Ok(parse_pid_lines(stdout));
    }
    if exit_code == Some(1i32) {
        return Ok(Vec::new());
    }
    let msg = concat(concat(concat("failed to query TCP port ", u64_to_decimal(port as u64).as_str()).as_str(), ": ").as_str(), trimmed(stderr).as_str());
    Err(msg)
}

/// What `kill -TERM` reported: success, or an error naming the process and
/// quoting its error output.
pub fn terminate_outcome(pid: u32, success: bool, stderr: &str) -> (r: Result<(), String>)
    ensures
        success ==> r is Ok,
        !success ==> (r matches Err(m) && m@ == "failed to terminate pid "@ + decimal(pid as nat) + ": "@
            + trim(stderr@)),
{
    if success {
        return Ok(());
    }
    let msg = concat(concat(concat("failed to terminate pid ", u64_to_decimal(pid as u64).as_str()).as_str(), ": ").as_str(), trimmed(stderr).as_str());
    Err(msg)
}

} // verus!
