use core::convert::Infallible;
use core::convert::TryInto;
use radio::{Register, Registers};

#[derive(Clone, Copy, Debug, PartialEq)]
struct TestRegister1 {
    value: u8,
}

impl From<u8> for TestRegister1 {
    fn from(value: u8) -> Self {
        Self { value: value }
    }
}

impl From<TestRegister1> for u8 {
    fn from(reg: TestRegister1) -> Self {
        reg.value
    }
}

impl Register for TestRegister1 {
    type Word = u8;
    type Error = Infallible;
    const ADDRESS: u8 = 0;
}

#[derive(Clone, Copy, Debug, PartialEq)]
struct TestRegister2 {
    value: [u8; 2],
}

impl From<[u8; 2]> for TestRegister2 {
    fn from(value: [u8; 2]) -> Self {
        Self { value }
    }
}

impl From<TestRegister2> for [u8; 2] {
    fn from(reg: TestRegister2) -> Self {
        reg.value
    }
}

impl Register for TestRegister2 {
    type Word = [u8; 2];
    type Error = Infallible;
    const ADDRESS: u8 = 1;
}

struct TestDevice {
    device_register: [u8; 3],
}

impl Registers<u8> for TestDevice {
    type Error = ();
    fn value_of<R: Register<Word = u8>>(&self) -> R {
        match R::try_from(self.device_register[R::ADDRESS as usize]) {
            Ok(r) => r,
            Err(_) => panic!("register value does not convert"),
        }
    }

    fn read_register<R: Register<Word = u8>>(&mut self) -> Result<R, Self::Error> {
        self.device_register[R::ADDRESS as usize]
            .try_into()
            .map_err(|_| ())
    }

    fn write_register<R: Register<Word = u8>>(&mut self, value: R) -> Result<(), Self::Error> {
        self.device_register[R::ADDRESS as usize] = value.into();
        Ok(())
    }
}

impl Registers<[u8; 2]> for TestDevice {
    type Error = ();
    fn value_of<R: Register<Word = [u8; 2]>>(&self) -> R {
        let addr = R::ADDRESS as usize;
        let mut word = [0u8; 2];
        word.copy_from_slice(&self.device_register[addr..addr + 2]);
        match R::try_from(word) {
            Ok(r) => r,
            Err(_) => panic!("register value does not convert"),
        }
    }

    fn read_register<R: Register<Word = [u8; 2]>>(&mut self) -> Result<R, Self::Error> {
        let addr = R::ADDRESS as usize;
        let mut result = [0u8; 2];
        result.copy_from_slice(&self.device_register[addr..addr + 2]);
        result.try_into().map_err(|_| ())
    }

    fn write_register<R: Register<Word = [u8; 2]>>(
        &mut self,
        value: R,
    ) -> Result<(), Self::Error> {
        let addr = R::ADDRESS as usize;
        self.device_register[addr..addr + 2].copy_from_slice(&value.into());
        Ok(())
    }
}

#[test]
fn update_register1() {
    let mut device = TestDevice {
        device_register: [0; 3],
    };
    device.write_register(TestRegister1 { value: 1 }).unwrap();
    device
        .update_register(|r: TestRegister1| (if r.value == 1 { 2 } else { 3 }).into())
        .unwrap();
    assert_eq!(
        device.read_register::<TestRegister1>().unwrap(),
        TestRegister1 { value: 2 }
    );
}

#[test]
fn update_register2() {
    let mut device = TestDevice {
        device_register: [0; 3],
    };
    device
        .write_register(TestRegister2 { value: [1, 2] })
        .unwrap();
    device
        .update_register(|r: TestRegister2| {
            (if r.value == [1, 2] { [2, 3] } else { [3, 4] }).into()
        })
        .unwrap();
    assert_eq!(
        device.read_register::<TestRegister2>().unwrap(),
        TestRegister2 { value: [2, 3] }
    );
}

#[test]
fn update_register_returns_written_value() {
    let mut device = TestDevice {
        device_register: [0; 3],
    };
    device.write_register(TestRegister1 { value: 7 }).unwrap();
    let written = device
        .update_register(|r: TestRegister1| (r.value + 1).into())
        .unwrap();
    assert_eq!(written, TestRegister1 { value: 8 });
    assert_eq!(device.device_register, [8, 0, 0]);
    assert_eq!(device.value_of::<TestRegister1>(), TestRegister1 { value: 8 });
}
