//! The S-parameters.
use vstd::prelude::*;

verus! {

/// Why an S-parameter could not be read or set.
#[derive(Debug, Clone, Copy, PartialEq, Eq, Structural)]
pub enum RegError {
    /// There is no such parameter.
    Unknown,
    /// The parameter does not take that value.
    OutOfRange,
}

/// The S-parameters of the DCE.
#[derive(Debug, Clone, Copy, PartialEq, Eq, Structural)]
pub struct Registers {
    /// Rings before answering by itself; 0 never does.
    pub s0: u8,
    /// The command line termination character.
    pub s3: u8,
    /// The response formatting character.
    pub s4: u8,
    /// The command line editing character.
    pub s5: u8,
    /// Pause before blind dialling, in seconds.
    pub s6: u8,
    /// Connection completion timeout, in seconds.
    pub s7: u8,
    /// Pause of a comma in a dial string, in seconds.
    pub s8: u8,
    /// Delay before disconnecting on loss of carrier, in tenths of a second.
    pub s10: u8,
}

/// The values a parameter takes, if there is such a parameter.
pub open spec fn range(n: nat) -> Option<(u32, u32)> {
    if n == 0 {
        Some((0, 255))
    } else if n == 3 || n == 4 || n == 5 {
        Some((0, 127))
    } else if n == 6 {
        Some((2, 10))
    } else if n == 7 {
        Some((1, 255))
    } else if n == 8 {
        Some((0, 255))
    } else if n == 10 {
        Some((1, 254))
    } else {
        None
    }
}

/// Whether a parameter can be given a value.
pub open spec fn takes(n: nat, value: u32) -> bool {
    match range(n) {
        Some((least, most)) => least <= value <= most,
        None => false,
    }
}

impl Registers {
    /// What a parameter holds, if there is such a parameter.
    pub open spec fn holds(self, n: nat) -> Option<u8> {
        if n == 0 {
            Some(self.s0)
        } else if n == 3 {
            Some(self.s3)
        } else if n == 4 {
            Some(self.s4)
        } else if n == 5 {
            Some(self.s5)
        } else if n == 6 {
            Some(self.s6)
        } else if n == 7 {
            Some(self.s7)
        } else if n == 8 {
            Some(self.s8)
        } else if n == 10 {
            Some(self.s10)
        } else {
            None
        }
    }

    /// The parameters with one of them changed.
    pub open spec fn with(self, n: nat, value: u8) -> Registers {
        if n == 0 {
            Registers { s0: value, ..self }
        } else if n == 3 {
            Registers { s3: value, ..self }
        } else if n == 4 {
            Registers { s4: value, ..self }
        } else if n == 5 {
            Registers { s5: value, ..self }
        } else if n == 6 {
            Registers { s6: value, ..self }
        } else if n == 7 {
            Registers { s7: value, ..self }
        } else if n == 8 {
            Registers { s8: value, ..self }
        } else if n == 10 {
            Registers { s10: value, ..self }
        } else {
            self
        }
    }

    /// Every parameter as it leaves the factory.
    pub open spec fn factory() -> Registers {
        Registers { s0: 0, s3: 13, s4: 10, s5: 8, s6: 2, s7: 50, s8: 2, s10: 14 }
    }

    /// What a parameter holds.
    pub fn get(&self, n: u32) -> (value: Result<u8, RegError>)
        ensures
            value == match self.holds(n as nat) {
                Some(value) => Ok(value),
                None => Err(RegError::Unknown),
            },
    {
        match n {
            0 => Ok(self.s0),
            3 => Ok(self.s3),
            4 => Ok(self.s4),
            5 => Ok(self.s5),
            6 => Ok(self.s6),
            7 => Ok(self.s7),
            8 => Ok(self.s8),
            10 => Ok(self.s10),
            _ => Err(RegError::Unknown),
        }
    }

    /// Give a parameter a value. A value it does not take leaves it alone.
    pub fn set(&mut self, n: u32, value: u32) -> (set: Result<(), RegError>)
        ensures
            set == if range(n as nat) is None {
                Err::<(), RegError>(RegError::Unknown)
            } else if !takes(n as nat, value) {
                Err(RegError::OutOfRange)
            } else {
                Ok(())
            },
            *final(self) == if takes(n as nat, value) {
                old(self).with(n as nat, value as u8)
            } else {
                *old(self)
            },
    {
        let (least, most): (u32, u32) = match n {
            0 | 8 => (0, 255),
            3 | 4 | 5 => (0, 127),
            6 => (2, 10),
            7 => (1, 255),
            10 => (1, 254),
            _ => {
                return Err(RegError::Unknown);
            },
        };
        if value < least || value > most {
            return Err(RegError::OutOfRange);
        }
        let value: u8 = value as u8;
        match n {
            0 => {
                self.s0 = value;
            },
            3 => {
                self.s3 = value;
            },
            4 => {
                self.s4 = value;
            },
            5 => {
                self.s5 = value;
            },
            6 => {
                self.s6 = value;
            },
            7 => {
                self.s7 = value;
            },
            8 => {
                self.s8 = value;
            },
            _ => {
                self.s10 = value;
            },
        }
        Ok(())
    }

    /// The character that ends a command line.
    pub fn terminator(&self) -> (c: u8)
        ensures
            c == self.s3,
    {
        self.s3
    }

    /// The character that takes back the one before it.
    pub fn editor(&self) -> (c: u8)
        ensures
            c == self.s5,
    {
        self.s5
    }
}

impl Default for Registers {
    fn default() -> (registers: Self)
        ensures
            registers == Registers::factory(),
    {
        Registers { s0: 0, s3: 13, s4: 10, s5: 8, s6: 2, s7: 50, s8: 2, s10: 14 }
    }
}

/// A parameter that is set reads back what it was set to, and setting it leaves every
/// other alone.
pub proof fn what_is_set_is_read_back(registers: Registers, n: nat, value: u8, other: nat)
    requires
        takes(n, value as u32),
    ensures
        registers.with(n, value).holds(n) == Some(value),
        other != n ==> registers.with(n, value).holds(other) == registers.holds(other),
{
}

/// The factory settings are values that the parameters take.
pub proof fn the_factory_settings_are_in_range(n: nat)
    ensures
        (range(n) is Some) == (Registers::factory().holds(n) is Some),
        Registers::factory().holds(n) matches Some(value) ==> takes(n, value as u32),
{
}

} // verus!
