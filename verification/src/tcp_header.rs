//! The structured form of a TCP segment header, including the options the
//! stack understands: maximum segment size, window scale, SACK-permitted
//! and timestamps (the latter two are parsed but never honored).

use vstd::prelude::*;

verus! {

/// A TCP option in structured form.
#[derive(Clone, Copy, Debug, PartialEq, Eq, Structural)]
pub enum TcpOption {
    EndOfList,
    NoOperation,
    MaximumSegmentSize(u16),
    WindowScale(u8),
    SackPermitted,
    Timestamp(u32, u32),
}

/// A TCP header in structured form.
#[derive(Clone, Debug)]
pub struct TcpHeader {
    pub src_port: u16,
    pub dst_port: u16,
    pub seq_num: u32,
    pub ack_num: u32,
    pub ack: bool,
    pub rst: bool,
    pub syn: bool,
    pub fin: bool,
    pub psh: bool,
    pub urg: bool,
    pub window_size: u16,
    pub urgent_pointer: u16,
    pub options: Vec<TcpOption>,
}

/// The mathematical form of a TCP header: the same fields with the option
/// list as a sequence.
pub struct TcpHeaderV {
    pub src_port: u16,
    pub dst_port: u16,
    pub seq_num: u32,
    pub ack_num: u32,
    pub ack: bool,
    pub rst: bool,
    pub syn: bool,
    pub fin: bool,
    pub psh: bool,
    pub urg: bool,
    pub window_size: u16,
    pub urgent_pointer: u16,
    pub options: Seq<TcpOption>,
}

impl View for TcpHeader {
    type V = TcpHeaderV;

    open spec fn view(&self) -> TcpHeaderV {
        TcpHeaderV {
            src_port: self.src_port,
            dst_port: self.dst_port,
            seq_num: self.seq_num,
            ack_num: self.ack_num,
            ack: self.ack,
            rst: self.rst,
            syn: self.syn,
            fin: self.fin,
            psh: self.psh,
            urg: self.urg,
            window_size: self.window_size,
            urgent_pointer: self.urgent_pointer,
            options: self.options@,
        }
    }
}

/// The first advertised maximum segment size among `options`, if any.
pub open spec fn spec_option_mss(options: Seq<TcpOption>) -> Option<u16>
    decreases options.len(),
{
    if options.len() == 0 {
        None
    } else {
        match options[0] {
            TcpOption::MaximumSegmentSize(m) => Some(m),
            _ => spec_option_mss(options.skip(1)),
        }
    }
}

/// The first advertised window scale among `options`, if any.
pub open spec fn spec_option_window_scale(options: Seq<TcpOption>) -> Option<u8>
    decreases options.len(),
{
    if options.len() == 0 {
        None
    } else {
        match options[0] {
            TcpOption::WindowScale(w) => Some(w),
            _ => spec_option_window_scale(options.skip(1)),
        }
    }
}

impl TcpHeader {
    /// A header with the given ports, all flags clear, zero sequence and
    /// acknowledgment numbers, zero window, and no options.
    pub fn new(src_port: u16, dst_port: u16) -> (r: TcpHeader)
        ensures
            r.src_port == src_port,
            r.dst_port == dst_port,
            r.seq_num == 0 && r.ack_num == 0,
            !r.ack && !r.rst && !r.syn && !r.fin && !r.psh && !r.urg,
            r.window_size == 0 && r.urgent_pointer == 0,
            r.options@ == Seq::<TcpOption>::empty(),
    {
        TcpHeader {
            src_port,
            dst_port,
            seq_num: 0,
            ack_num: 0,
            ack: false,
            rst: false,
            syn: false,
            fin: false,
            psh: false,
            urg: false,
            window_size: 0,
            urgent_pointer: 0,
            options: Vec::new(),
        }
    }

    /// Appends one option to the header's option list.
    pub fn push_option(&mut self, option: TcpOption)
        ensures
            final(self).options@ == old(self).options@.push(option),
            final(self).src_port == old(self).src_port,
            final(self).dst_port == old(self).dst_port,
            final(self).seq_num == old(self).seq_num,
            final(self).ack_num == old(self).ack_num,
            final(self).ack == old(self).ack && final(self).rst == old(self).rst,
            final(self).syn == old(self).syn && final(self).fin == old(self).fin,
            final(self).psh == old(self).psh && final(self).urg == old(self).urg,
            final(self).window_size == old(self).window_size,
            final(self).urgent_pointer == old(self).urgent_pointer,
    {
        self.options.push(option);
    }

    /// The advertised maximum segment size, if the header carries one.
    pub fn option_mss(&self) -> (r: Option<u16>)
        ensures
            r == spec_option_mss(self.options@),
    {
        let n = self.options.len();
        proof {
            assert(self.options@.skip(0) =~= self.options@);
        }
        for i in 0..n
            invariant
                n == self.options@.len(),
                spec_option_mss(self.options@) == spec_option_mss(self.options@.skip(i as int)),
        {
            let ghost pre = self.options@.skip(i as int);
            match self.options[i] {
                TcpOption::MaximumSegmentSize(m) => {
                    return Some(m);
                },
                _ => {
                    proof {
                        assert(pre.skip(1) =~= self.options@.skip(i + 1));
                    }
                },
            }
        }
        None
    }

    /// The advertised window scale, if the header carries one.
    pub fn option_window_scale(&self) -> (r: Option<u8>)
        ensures
            r == spec_option_window_scale(self.options@),
    {
        let n = self.options.len();
        proof {
            assert(self.options@.skip(0) =~= self.options@);
        }
        for i in 0..n
            invariant
                n == self.options@.len(),
                spec_option_window_scale(self.options@)
                    == spec_option_window_scale(self.options@.skip(i as int)),
        {
            let ghost pre = self.options@.skip(i as int);
            match self.options[i] {
                TcpOption::WindowScale(w) => {
                    return Some(w);
                },
                _ => {
                    proof {
                        assert(pre.skip(1) =~= self.options@.skip(i + 1));
                    }
                },
            }
        }
        None
    }
}

} // verus!
