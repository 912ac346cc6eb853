use vstd::prelude::*;
use core::marker::PhantomData;

verus! {

/// One access to an I/O port, for the caller to carry out.
#[derive(Debug, Clone, Copy, PartialEq, Eq, Structural)]
pub enum PortOp {
    /// Read a byte from the port.
    ReadByte(u16),
    /// Read a 16-bit word from the port.
    ReadWord(u16),
    /// Write the byte to the port.
    WriteByte(u16, u8),
    /// Write the 16-bit word to the port.
    WriteWord(u16, u16),
}

/// A value of a width that a port can be written with.
pub trait WritePort: Sized + Copy {
    /// The write of `value` to `port`.
    spec fn spec_write_port(port: u16, value: Self) -> PortOp;

    /// Names the write of `value` to `port`.
    fn write_port(port: u16, value: Self) -> (op: PortOp)
        ensures
            op == Self::spec_write_port(port, value),
    ;
}

/// A value of a width that a port can be read in.
pub trait ReadPort: Sized + Copy {
    /// The read of `port`.
    spec fn spec_read_port(port: u16) -> PortOp;

    /// Names the read of `port`.
    fn read_port(port: u16) -> (op: PortOp)
        ensures
            op == Self::spec_read_port(port),
    ;
}

impl WritePort for u8 {
    open spec fn spec_write_port(port: u16, value: Self) -> PortOp {
        PortOp::WriteByte(port, value)
    }

    fn write_port(port: u16, value: Self) -> (op: PortOp) {
        PortOp::WriteByte(port, value)
    }
}

impl WritePort for u16 {
    open spec fn spec_write_port(port: u16, value: Self) -> PortOp {
        PortOp::WriteWord(port, value)
    }

    fn write_port(port: u16, value: Self) -> (op: PortOp) {
        PortOp::WriteWord(port, value)
    }
}

impl ReadPort for u8 {
    open spec fn spec_read_port(port: u16) -> PortOp {
        PortOp::ReadByte(port)
    }

    fn read_port(port: u16) -> (op: PortOp) {
        PortOp::ReadByte(port)
    }
}

impl ReadPort for u16 {
    open spec fn spec_read_port(port: u16) -> PortOp {
        PortOp::ReadWord(port)
    }

    fn read_port(port: u16) -> (op: PortOp) {
        PortOp::ReadWord(port)
    }
}

/// A port that is only read.
#[derive(Debug)]
pub struct PortReader<T: ReadPort> {
    pub port: u16,
    pub _phantom_data: PhantomData<T>,
}

impl<T: ReadPort> PortReader<T> {
    /// The port of number `port`, to be read in the width of `T`.
    pub fn new(port: u16) -> (reader: Self)
        ensures
            reader.port == port,
    {
        Self { port, _phantom_data: PhantomData }
    }

    /// The read of this port.
    pub fn read(&self) -> (op: PortOp)
        ensures
            op == T::spec_read_port(self.port),
    {
        T::read_port(self.port)
    }
}

/// A port that is only written.
#[derive(Debug)]
pub struct PortWriter<T: WritePort> {
    pub port: u16,
    pub _phantom_data: PhantomData<T>,
}

impl<T: WritePort> PortWriter<T> {
    /// The port of number `port`, to be written in the width of `T`.
    pub fn new(port: u16) -> (writer: Self)
        ensures
            writer.port == port,
    {
        Self { port, _phantom_data: PhantomData }
    }

    /// The write of `value` to this port.
    pub fn write(&self, value: T) -> (op: PortOp)
        ensures
            op == T::spec_write_port(self.port, value),
    {
        T::write_port(self.port, value)
    }
}

/// A port that is read and written.
#[derive(Debug)]
pub struct PortRW<T: ReadPort + WritePort> {
    pub port: u16,
    pub _phantom_data: PhantomData<T>,
}

impl<T: ReadPort + WritePort> PortRW<T> {
    /// The port of number `port`, to be read and written in the width of
    /// `T`.
    pub fn new(port: u16) -> (rw: Self)
        ensures
            rw.port == port,
    {
        Self { port, _phantom_data: PhantomData }
    }

    /// The read of this port.
    pub fn read(&self) -> (op: PortOp)
        ensures
            op == T::spec_read_port(self.port),
    {
        T::read_port(self.port)
    }

    /// The write of `value` to this port.
    pub fn write(&self, value: T) -> (op: PortOp)
        ensures
            op == T::spec_write_port(self.port, value),
    {
        T::write_port(self.port, value)
    }
}

impl<T: ReadPort> Clone for PortReader<T> {
    fn clone(&self) -> (copy: Self)
        ensures
            copy == *self,
    {
        PortReader { port: self.port, _phantom_data: PhantomData }
    }
}

impl<T: ReadPort> Copy for PortReader<T> {

}

impl<T: WritePort> Clone for PortWriter<T> {
    fn clone(&self) -> (copy: Self)
        ensures
            copy == *self,
    {
        PortWriter { port: self.port, _phantom_data: PhantomData }
    }
}

impl<T: WritePort> Copy for PortWriter<T> {

}

impl<T: ReadPort + WritePort> Clone for PortRW<T> {
    fn clone(&self) -> (copy: Self)
        ensures
            copy == *self,
    {
        PortRW { port: self.port, _phantom_data: PhantomData }
    }
}

impl<T: ReadPort + WritePort> Copy for PortRW<T> {

}

} // verus!
