//! Controller core: the cursor/mode state machine of the PCD8544.
//!
//! The chip is write-only, so the driver keeps a shadow copy of everything
//! the chip remembers: the three mode flags of the function-set register
//! (power down, addressing direction, instruction set) and the DDRAM write
//! pointer. The shadow stays synchronized because state only ever changes at
//! two chokepoints: [`PCD8544::write_command`] for command bytes and
//! [`PCD8544::write_data`] for data bytes.
//!
//! Contracts are stated over [`DriverView`], an abstract view that carries
//! the shadow state together with the full history of framed bytes put on
//! the bus ([`BusEvent`]). Well-formedness ties that history to the bytes
//! the serial transport actually transmitted.

use vstd::prelude::*;

use crate::instructions::{
    function_set_byte,
    DisplayMode,
    Instruction,
    MuxRate,
    TemperatureCoefficient,
};
use crate::pins::OutputPin;
use crate::transport::SerialLink;

verus! {

/// Default contrast (operating voltage) programmed by [`PCD8544::reset`]:
/// a mid-range value suiting the common Nokia 5110 boards.
pub const DEFAULT_CONTRAST: u8 = 65;

/// The error surfaced to callers: a pin could not be driven, or the serial
/// transport failed. The payload is the collaborator's own error value.
#[derive(Debug, PartialEq, Eq)]
pub enum PCDError<E> {
    /// A GPIO line could not be driven to the requested level.
    Pin(E),
    /// The serial transport failed to transmit.
    Spi(E),
}

/// One byte put on the bus, together with its data/command framing.
#[derive(Debug, Clone, Copy)]
pub enum BusEvent {
    /// A byte transmitted with the data/command line low: a register write.
    Command(u8),
    /// A byte transmitted with the data/command line high: a DDRAM write.
    Data(u8),
}

impl BusEvent {
    /// The byte carried by this event.
    pub open spec fn value(self) -> u8 {
        match self {
            BusEvent::Command(b) => b,
            BusEvent::Data(b) => b,
        }
    }

    /// Whether this event was framed as DDRAM data.
    pub open spec fn is_data(self) -> bool {
        self is Data
    }
}

/// The bare bytes of a framed event history, in transmission order.
pub open spec fn bus_bytes(events: Seq<BusEvent>) -> Seq<u8> {
    events.map_values(|e: BusEvent| e.value())
}

/// Appending one event appends its byte.
pub proof fn lemma_bus_bytes_push(events: Seq<BusEvent>, e: BusEvent)
    ensures
        bus_bytes(events.push(e)) == bus_bytes(events).push(e.value()),
{
    assert(bus_bytes(events.push(e)) =~= bus_bytes(events).push(e.value()));
}

/// A run of bytes framed as commands.
pub open spec fn as_commands(bytes: Seq<u8>) -> Seq<BusEvent> {
    bytes.map_values(|b: u8| BusEvent::Command(b))
}

/// A run of bytes framed as DDRAM data.
pub open spec fn as_data(bytes: Seq<u8>) -> Seq<BusEvent> {
    bytes.map_values(|b: u8| BusEvent::Data(b))
}

/// Abstract state of the controller: the shadow of everything the chip
/// remembers, plus the history of framed bytes put on the bus.
#[verifier::ext_equal]
pub struct DriverView {
    /// Shadow of the chip's power-down flag.
    pub power_down: bool,
    /// Shadow of the chip's addressing mode: `false` horizontal, `true`
    /// vertical.
    pub vertical: bool,
    /// Shadow of the chip's instruction-set selection: `true` extended.
    pub extended: bool,
    /// Shadow of the DDRAM column pointer, below 84.
    pub x: u8,
    /// Shadow of the DDRAM bank pointer, below 6.
    pub y: u8,
    /// Text-view cursor column, below 14.
    pub col: u8,
    /// Text-view cursor row, below 6.
    pub row: u8,
    /// History of framed bytes put on the bus, oldest first.
    pub bus: Seq<BusEvent>,
}

/// The shadow cursors lie inside their grids: 84 by 6 DDRAM positions and
/// 14 by 6 character cells.
pub open spec fn view_wf(st: DriverView) -> bool {
    st.x < 84 && st.y < 6 && st.col < 14 && st.row < 6
}

/// `f` agrees with `o` on everything but the bus history.
pub open spec fn same_state_except_bus(o: DriverView, f: DriverView) -> bool {
    f == DriverView { bus: f.bus, ..o }
}

/// `f` agrees with `o` on the three mode flags.
pub open spec fn same_config(o: DriverView, f: DriverView) -> bool {
    f.power_down == o.power_down && f.vertical == o.vertical && f.extended == o.extended
}

/// `f` agrees with `o` on the text cursor.
pub open spec fn same_text_cursor(o: DriverView, f: DriverView) -> bool {
    f.col == o.col && f.row == o.row
}

/// The DDRAM pointer position following `(x, y)`: the column advances
/// modulo 84, and when it wraps the bank advances modulo 6.
pub open spec fn cursor_next(x: u8, y: u8) -> (u8, u8) {
    if x == 83 {
        (0u8, if y == 5 {
            0u8
        } else {
            ((y + 1) as u8)
        })
    } else {
        (((x + 1) as u8), y)
    }
}

/// The DDRAM pointer after `n` single advances from `(x, y)`.
pub open spec fn cursor_after(x: u8, y: u8, n: nat) -> (u8, u8)
    decreases n,
{
    if n == 0 {
        (x, y)
    } else {
        let (a, b) = cursor_after(x, y, (n - 1) as nat);
        cursor_next(a, b)
    }
}

/// Effect of one data byte on the abstract state: the byte joins the bus
/// history as data and the shadow cursor advances once.
pub open spec fn data_step(st: DriverView, byte: u8) -> DriverView {
    DriverView {
        x: cursor_next(st.x, st.y).0,
        y: cursor_next(st.x, st.y).1,
        bus: st.bus.push(BusEvent::Data(byte)),
        ..st
    }
}

/// The abstract state after writing a run of data bytes in order: each one
/// joins the bus history and advances the DDRAM cursor once.
pub open spec fn data_run(st: DriverView, bytes: Seq<u8>) -> DriverView
    decreases bytes.len(),
{
    if bytes.len() == 0 {
        st
    } else {
        data_step(data_run(st, bytes.drop_last()), bytes.last())
    }
}

/// A run of data bytes moves only the DDRAM cursor and the bus history:
/// the mode flags and the text cursor come through unchanged.
pub proof fn lemma_data_run_frame(st: DriverView, bytes: Seq<u8>)
    ensures
        data_run(st, bytes).power_down == st.power_down,
        data_run(st, bytes).vertical == st.vertical,
        data_run(st, bytes).extended == st.extended,
        data_run(st, bytes).col == st.col,
        data_run(st, bytes).row == st.row,
    decreases bytes.len(),
{
    if bytes.len() > 0 {
        lemma_data_run_frame(st, bytes.drop_last());
    }
}

/// A run of data bytes appends exactly itself, framed as data, to the bus
/// history.
pub proof fn lemma_data_run_bus(st: DriverView, bytes: Seq<u8>)
    ensures
        data_run(st, bytes).bus == st.bus + as_data(bytes),
    decreases bytes.len(),
{
    if bytes.len() == 0 {
        assert(st.bus + as_data(bytes) =~= st.bus);
    } else {
        lemma_data_run_bus(st, bytes.drop_last());
        assert(as_data(bytes).drop_last() =~= as_data(bytes.drop_last()));
        assert(as_data(bytes).last() == BusEvent::Data(bytes.last()));
        assert(st.bus + as_data(bytes) =~= (st.bus + as_data(bytes.drop_last())).push(
            BusEvent::Data(bytes.last()),
        ));
    }
}

/// A run of data bytes advances the DDRAM cursor once per byte.
pub proof fn lemma_data_run_cursor(st: DriverView, bytes: Seq<u8>)
    ensures
        data_run(st, bytes).x == cursor_after(st.x, st.y, bytes.len()).0,
        data_run(st, bytes).y == cursor_after(st.x, st.y, bytes.len()).1,
    decreases bytes.len(),
{
    if bytes.len() > 0 {
        lemma_data_run_cursor(st, bytes.drop_last());
    }
}

/// The two command bytes a single instruction becomes on the bus: a
/// function-set byte selecting the instruction's required mode under the
/// current flags, then the instruction's own byte.
pub open spec fn command_events(st: DriverView, i: Instruction) -> Seq<BusEvent> {
    seq![
        BusEvent::Command(function_set_byte(st.power_down, st.vertical, i.extended())),
        BusEvent::Command(i.encoding()),
    ]
}

/// Effect of one instruction on the abstract state: its two command bytes
/// join the bus history and the shadow follows what the chip will remember —
/// the instruction-set bit of the prefixed function-set byte, new flags if
/// the instruction is itself a function-set, and the DDRAM pointer if it is
/// an address set.
pub open spec fn command_step(st: DriverView, i: Instruction) -> DriverView {
    let sent = DriverView { bus: st.bus + command_events(st, i), extended: i.extended(), ..st };
    match i {
        Instruction::FunctionSet { pd, v, h } => DriverView {
            power_down: pd,
            vertical: v,
            extended: h,
            ..sent
        },
        Instruction::Xaddress(c) => DriverView { x: c, ..sent },
        Instruction::Yaddress(b) => DriverView { y: b, ..sent },
        _ => sent,
    }
}

/// The six-byte initialization sequence programmed by a reset: switch to
/// extended instructions, set contrast, temperature coefficient and bias,
/// switch back to basic instructions, select the normal display mode.
pub open spec fn init_bytes(contrast: u8) -> Seq<u8> {
    seq![
        function_set_byte(false, false, true),
        Instruction::SetVop(contrast).encoding(),
        Instruction::SetTempCoefficient(TemperatureCoefficient::TC2).encoding(),
        Instruction::SetBiasMode(MuxRate::Bias1To48).encoding(),
        function_set_byte(false, false, false),
        Instruction::SetDisplayMode(DisplayMode::Normal).encoding(),
    ]
}

/// The initialization sequence as framed bus events.
pub open spec fn init_events(contrast: u8) -> Seq<BusEvent> {
    as_commands(init_bytes(contrast))
}

/// `n` zero bytes framed as DDRAM data.
pub open spec fn data_zeros(n: nat) -> Seq<BusEvent> {
    Seq::new(n, |i: int| BusEvent::Data(0))
}

/// Everything a full hardware clear puts on the bus: 504 zero data bytes
/// covering the whole DDRAM, then the two address-set commands (each with
/// its function-set prefix under the current flags) that move the write
/// pointer back to the origin.
pub open spec fn clear_events(pd: bool, vertical: bool) -> Seq<BusEvent> {
    data_zeros(504) + seq![
        BusEvent::Command(function_set_byte(pd, vertical, false)),
        BusEvent::Command(0x80),
        BusEvent::Command(function_set_byte(pd, vertical, false)),
        BusEvent::Command(0x40),
    ]
}

/// Everything a reset puts on the bus: the initialization sequence, then
/// the full hardware clear.
pub open spec fn reset_events(contrast: u8) -> Seq<BusEvent> {
    init_events(contrast) + clear_events(false, false)
}

/// Effect of a reset on the abstract state: all mode flags cleared, the
/// DDRAM pointer at the origin, and the initialization sequence followed by
/// a full clear appended to the bus history. The text cursor is untouched.
pub open spec fn reset_step(st: DriverView, contrast: u8) -> DriverView {
    DriverView {
        power_down: false,
        vertical: false,
        extended: false,
        x: 0,
        y: 0,
        bus: st.bus + init_events(contrast) + clear_events(false, false),
        ..st
    }
}

impl Instruction {
    /// Whether issuing this instruction keeps the shadow cursor inside the
    /// DDRAM grid: an X address must name one of the 84 columns and a Y
    /// address one of the 6 banks. Out-of-range addresses are programmer
    /// errors, to be range-checked upstream.
    pub open spec fn cursor_safe(self) -> bool {
        match self {
            Instruction::Xaddress(c) => c < 84,
            Instruction::Yaddress(b) => b < 6,
            _ => true,
        }
    }
}

/// Driver for the PCD8544 LCD controller.
///
/// Owns the serial transport and the data/command (DC), chip-enable (CE),
/// reset (RST) and backlight (LIGHT) lines for its whole lifetime.
pub struct PCD8544<SPI, DC, CE, RST, LIGHT> {
    spi: SPI,
    dc: DC,
    ce: CE,
    rst: RST,
    light: LIGHT,
    power_down: bool,
    vertical: bool,
    extended: bool,
    x: u8,
    y: u8,
    text_col: u8,
    text_row: u8,
    bus: Ghost<Seq<BusEvent>>,
    base: Ghost<Seq<u8>>,
}

impl<SPI, DC, CE, RST, LIGHT> View for PCD8544<SPI, DC, CE, RST, LIGHT> {
    type V = DriverView;

    closed spec fn view(&self) -> DriverView {
        DriverView {
            power_down: self.power_down,
            vertical: self.vertical,
            extended: self.extended,
            x: self.x,
            y: self.y,
            col: self.text_col,
            row: self.text_row,
            bus: self.bus@,
        }
    }
}

impl<SPI, DC, CE, RST, LIGHT, E> PCD8544<SPI, DC, CE, RST, LIGHT> where
    SPI: SerialLink<LinkError = E>,
    DC: OutputPin<PinError = E>,
    CE: OutputPin<PinError = E>,
    RST: OutputPin<PinError = E>,
    LIGHT: OutputPin<PinError = E>,
 {
    /// The bytes the serial transport has transmitted.
    pub closed spec fn transport_log(&self) -> Seq<u8> {
        self.spi.sent()
    }

    /// The bytes the transport had already transmitted for previous owners
    /// when this driver took it over.
    pub closed spec fn base_log(&self) -> Seq<u8> {
        self.base@
    }

    /// Level history of the data/command line.
    pub closed spec fn dc_levels(&self) -> Seq<bool> {
        self.dc.levels()
    }

    /// Level history of the chip-enable line.
    pub closed spec fn ce_levels(&self) -> Seq<bool> {
        self.ce.levels()
    }

    /// Level history of the reset line.
    pub closed spec fn rst_levels(&self) -> Seq<bool> {
        self.rst.levels()
    }

    /// Level history of the backlight line.
    pub closed spec fn light_levels(&self) -> Seq<bool> {
        self.light.levels()
    }

    /// Well-formedness: the shadow cursors are in range, and the framed bus
    /// history accounts byte-for-byte for everything the transport has
    /// transmitted on this driver's behalf.
    pub closed spec fn wf(&self) -> bool {
        view_wf(self@) && self.spi.sent() == self.base@ + bus_bytes(self.bus@)
    }

    /// The transport transmitted exactly the bytes of the framed history,
    /// after whatever it had sent before construction.
    pub proof fn lemma_transport_log(&self)
        requires
            self.wf(),
        ensures
            self.transport_log() == self.base_log() + bus_bytes(self@.bus),
            view_wf(self@),
    {
    }

    /// Borrow the serial transport, for reading back a recording link.
    pub fn transport(&self) -> (r: &SPI)
        ensures
            r.sent() == self.transport_log(),
    {
        &self.spi
    }

    /// Borrow the data/command pin, for reading back a recording pin.
    pub fn dc_pin(&self) -> (r: &DC)
        ensures
            r.levels() == self.dc_levels(),
    {
        &self.dc
    }

    /// Borrow the chip-enable pin, for reading back a recording pin.
    pub fn ce_pin(&self) -> (r: &CE)
        ensures
            r.levels() == self.ce_levels(),
    {
        &self.ce
    }

    /// Borrow the reset pin, for reading back a recording pin.
    pub fn rst_pin(&self) -> (r: &RST)
        ensures
            r.levels() == self.rst_levels(),
    {
        &self.rst
    }

    /// Borrow the backlight pin, for reading back a recording pin.
    pub fn light_pin(&self) -> (r: &LIGHT)
        ensures
            r.levels() == self.light_levels(),
    {
        &self.light
    }

    /// Construct a driver that owns the given transport and pins.
    ///
    /// Drives CE high (deselected) and RST low (reset asserted, not yet
    /// released); the mode flags and both shadow cursors start at zero. The
    /// chip is in an undefined state at power-on, so a caller must invoke
    /// [`PCD8544::reset`] before using the display.
    pub fn new(spi: SPI, dc: DC, ce: CE, rst: RST, light: LIGHT) -> (r: Result<
        PCD8544<SPI, DC, CE, RST, LIGHT>,
        PCDError<E>,
    >)
        ensures
            r matches Ok(d) ==> d.wf() && d@ == (DriverView {
                power_down: false,
                vertical: false,
                extended: false,
                x: 0,
                y: 0,
                col: 0,
                row: 0,
                bus: Seq::<BusEvent>::empty(),
            }) && d.transport_log() == spi.sent() && d.base_log() == spi.sent() && d.ce_levels()
                == ce.levels().push(true) && d.rst_levels() == rst.levels().push(false)
                && d.dc_levels() == dc.levels() && d.light_levels() == light.levels(),
    {
        let mut ce = ce;
        let mut rst = rst;
        match ce.set_high() {
            Ok(()) => {},
            Err(e) => {
                return Err(PCDError::Pin(e));
            },
        }
        match rst.set_low() {
            Ok(()) => {},
            Err(e) => {
                return Err(PCDError::Pin(e));
            },
        }
        let d = PCD8544 {
            base: Ghost(spi.sent()),
            spi,
            dc,
            ce,
            rst,
            light,
            power_down: false,
            vertical: false,
            extended: false,
            x: 0,
            y: 0,
            text_col: 0,
            text_row: 0,
            bus: Ghost(Seq::empty()),
        };
        proof {
            assert(d.spi.sent() =~= d.base@ + bus_bytes(d.bus@));
        }
        Ok(d)
    }

    /// Transmit a run of already-encoded command bytes in one chip-enable
    /// frame: DC low, CE low, the bytes, CE high.
    ///
    /// This raw form does not track mode changes in the shadow flags; it
    /// backs `write_command` and the fixed initialization sequence, which
    /// account for the flags themselves.
    #[verifier::loop_isolation(false)]
    fn write_commands(&mut self, bytes: &[u8]) -> (r: Result<(), PCDError<E>>)
        requires
            old(self).wf(),
        ensures
            final(self).wf(),
            final(self).base_log() == old(self).base_log(),
            same_state_except_bus(old(self)@, final(self)@),
            final(self).rst_levels() == old(self).rst_levels(),
            final(self).light_levels() == old(self).light_levels(),
            r is Ok ==> final(self)@.bus == old(self)@.bus + as_commands(bytes@) && final(self).dc_levels() == old(self).dc_levels().push(false) && final(self).ce_levels() == old(self).ce_levels().push(false).push(true),
            r is Err ==> exists|k: int|
                0 <= k <= bytes@.len() && final(self)@.bus == old(self)@.bus + as_commands(
                    bytes@.subrange(0, k),
                ),
    {
        match self.dc.set_low() {
            Ok(()) => {},
            Err(e) => {
                proof {
                    assert(self@.bus =~= old(self)@.bus + as_commands(bytes@.subrange(0, 0)));
                }
                return Err(PCDError::Pin(e));
            },
        }
        match self.ce.set_low() {
            Ok(()) => {},
            Err(e) => {
                proof {
                    assert(self@.bus =~= old(self)@.bus + as_commands(bytes@.subrange(0, 0)));
                }
                return Err(PCDError::Pin(e));
            },
        }
        let mut i: usize = 0;
        while i < bytes.len()
            invariant
                i <= bytes@.len(),
                self.wf(),
                self.base_log() == old(self).base_log(),
                same_state_except_bus(old(self)@, self@),
                self.rst_levels() == old(self).rst_levels(),
                self.light_levels() == old(self).light_levels(),
                self@.bus == old(self)@.bus + as_commands(bytes@.subrange(0, i as int)),
                self.dc_levels() == old(self).dc_levels().push(false),
                self.ce_levels() == old(self).ce_levels().push(false),
            decreases bytes@.len() - i,
        {
            match self.spi.write_byte(bytes[i]) {
                Ok(()) => {},
                Err(e) => {
                    return Err(PCDError::Spi(e));
                },
            }
            let ghost prev = self.bus@;
            self.bus = Ghost(self.bus@.push(BusEvent::Command(bytes@[i as int])));
            proof {
                lemma_bus_bytes_push(prev, BusEvent::Command(bytes@[i as int]));
                assert(self.spi.sent() =~= self.base@ + bus_bytes(self.bus@));
                assert(as_commands(bytes@.subrange(0, i as int + 1)) =~= as_commands(
                    bytes@.subrange(0, i as int),
                ).push(BusEvent::Command(bytes@[i as int])));
                assert(self@.bus =~= old(self)@.bus + as_commands(
                    bytes@.subrange(0, i as int + 1),
                ));
            }
            i = i + 1;
        }
        proof {
            assert(bytes@.subrange(0, bytes@.len() as int) =~= bytes@);
        }
        match self.ce.set_high() {
            Ok(()) => {},
            Err(e) => {
                return Err(PCDError::Pin(e));
            },
        }
        Ok(())
    }

    /// Send one instruction, always as a two-byte sequence: a function-set
    /// byte selecting the instruction's required basic/extended mode under
    /// the current flags, then the instruction byte itself. Callers never
    /// track mode transitions.
    ///
    /// Address arguments must be in range (`cursor_safe`); range-check
    /// upstream, for example by reducing modulo the grid size.
    pub fn write_command(&mut self, instruction: Instruction) -> (r: Result<(), PCDError<E>>)
        requires
            old(self).wf(),
            instruction.cursor_safe(),
        ensures
            final(self).wf(),
            final(self).base_log() == old(self).base_log(),
            final(self).rst_levels() == old(self).rst_levels(),
            final(self).light_levels() == old(self).light_levels(),
            r is Ok ==> final(self)@ == command_step(old(self)@, instruction) && final(self).dc_levels() == old(self).dc_levels().push(false) && final(self).ce_levels() == old(self).ce_levels().push(false).push(true),
            r is Err ==> same_state_except_bus(old(self)@, final(self)@) && exists|k: int|
                0 <= k <= 2 && final(self)@.bus == old(self)@.bus + command_events(
                    old(self)@,
                    instruction,
                ).subrange(0, k),
    {
        let ext = instruction.mode();
        let fs = Instruction::FunctionSet { pd: self.power_down, v: self.vertical, h: ext };
        let b1 = fs.byte();
        let b2 = instruction.byte();
        let arr: [u8; 2] = [b1, b2];
        proof {
            assert(arr@ =~= seq![b1, b2]);
            assert(command_events(old(self)@, instruction) =~= as_commands(arr@));
        }
        match self.write_commands(arr.as_slice()) {
            Ok(()) => {},
            Err(e) => {
                proof {
                    let k = choose|k: int|
                        0 <= k <= arr@.len() && self@.bus == old(self)@.bus + as_commands(
                            arr@.subrange(0, k),
                        );
                    assert(as_commands(arr@.subrange(0, k)) =~= as_commands(arr@).subrange(0, k));
                    assert(self@.bus == old(self)@.bus + command_events(
                        old(self)@,
                        instruction,
                    ).subrange(0, k));
                }
                return Err(e);
            },
        }
        self.extended = ext;
        match instruction {
            Instruction::FunctionSet { pd, v, h } => {
                self.power_down = pd;
                self.vertical = v;
                self.extended = h;
            },
            Instruction::Xaddress(c) => {
                self.x = c;
            },
            Instruction::Yaddress(b) => {
                self.y = b;
            },
            _ => {},
        }
        proof {
            assert(self@ =~= command_step(old(self)@, instruction));
        }
        Ok(())
    }

    /// Send one byte of DDRAM data (DC high, CE low, the byte, CE high, DC
    /// back low) and advance the shadow cursor: the column increments modulo
    /// 84, and when it wraps the bank increments modulo 6.
    ///
    /// This is the only place the data cursor changes, which is what keeps
    /// the shadow equal to the chip's auto-incrementing write pointer.
    pub fn write_data(&mut self, byte: u8) -> (r: Result<(), PCDError<E>>)
        requires
            old(self).wf(),
        ensures
            final(self).wf(),
            final(self).base_log() == old(self).base_log(),
            same_config(old(self)@, final(self)@),
            same_text_cursor(old(self)@, final(self)@),
            final(self).rst_levels() == old(self).rst_levels(),
            final(self).light_levels() == old(self).light_levels(),
            r is Ok ==> final(self)@ == data_step(old(self)@, byte) && final(self).dc_levels()
                == old(self).dc_levels().push(true).push(false) && final(self).ce_levels() == old(self).ce_levels().push(false).push(true),
            r is Err ==> final(self)@.x == old(self)@.x && final(self)@.y == old(self)@.y && (final(self)@.bus == old(self)@.bus || final(self)@.bus == old(self)@.bus.push(
                BusEvent::Data(byte),
            )),
    {
        match self.dc.set_high() {
            Ok(()) => {},
            Err(e) => {
                return Err(PCDError::Pin(e));
            },
        }
        match self.ce.set_low() {
            Ok(()) => {},
            Err(e) => {
                return Err(PCDError::Pin(e));
            },
        }
        match self.spi.write_byte(byte) {
            Ok(()) => {},
            Err(e) => {
                return Err(PCDError::Spi(e));
            },
        }
        let ghost prev = self.bus@;
        self.bus = Ghost(self.bus@.push(BusEvent::Data(byte)));
        proof {
            lemma_bus_bytes_push(prev, BusEvent::Data(byte));
            assert(self.spi.sent() =~= self.base@ + bus_bytes(self.bus@));
        }
        match self.ce.set_high() {
            Ok(()) => {},
            Err(e) => {
                return Err(PCDError::Pin(e));
            },
        }
        match self.dc.set_low() {
            Ok(()) => {},
            Err(e) => {
                return Err(PCDError::Pin(e));
            },
        }
        if self.x == 83 {
            self.x = 0;
            self.y = if self.y == 5 {
                0
            } else {
                self.y + 1
            };
        } else {
            self.x = self.x + 1;
        }
        proof {
            assert(self@ =~= data_step(old(self)@, byte));
        }
        Ok(())
    }

    /// Clear the screen by zeroing the chip's DDRAM: write 504 zero data
    /// bytes (the auto-incrementing pointer wraps over the whole memory,
    /// whatever position it starts from), then move the hardware write
    /// pointer and its shadow back to the origin.
    #[verifier::loop_isolation(false)]
    pub fn hw_cls(&mut self) -> (r: Result<(), PCDError<E>>)
        requires
            old(self).wf(),
        ensures
            final(self).wf(),
            final(self).base_log() == old(self).base_log(),
            final(self)@.power_down == old(self)@.power_down,
            final(self)@.vertical == old(self)@.vertical,
            same_text_cursor(old(self)@, final(self)@),
            final(self).rst_levels() == old(self).rst_levels(),
            final(self).light_levels() == old(self).light_levels(),
            r is Ok ==> final(self)@ == (DriverView {
                x: 0,
                y: 0,
                extended: false,
                bus: old(self)@.bus + clear_events(old(self)@.power_down, old(self)@.vertical),
                ..old(self)@
            }),
            r is Err ==> exists|k: int|
                0 <= k <= 508 && final(self)@.bus == old(self)@.bus + clear_events(
                    old(self)@.power_down,
                    old(self)@.vertical,
                ).subrange(0, k),
    {
        let ghost ce = clear_events(old(self)@.power_down, old(self)@.vertical);
        let mut i: usize = 0;
        while i < 504
            invariant
                i <= 504,
                self.wf(),
                self.base_log() == old(self).base_log(),
                same_config(old(self)@, self@),
                same_text_cursor(old(self)@, self@),
                self.rst_levels() == old(self).rst_levels(),
                self.light_levels() == old(self).light_levels(),
                self@.bus == old(self)@.bus + data_zeros(i as nat),
            decreases 504 - i,
        {
            let ghost pre_bus = self@.bus;
            match self.write_data(0x00) {
                Ok(()) => {},
                Err(e) => {
                    proof {
                        assert(ce.subrange(0, i as int) =~= data_zeros(i as nat));
                        assert(ce.subrange(0, i as int + 1) =~= data_zeros(i as nat).push(
                            BusEvent::Data(0),
                        ));
                        if self@.bus == pre_bus {
                            assert(self@.bus == old(self)@.bus + ce.subrange(0, i as int));
                        } else {
                            assert(self@.bus =~= old(self)@.bus + ce.subrange(0, i as int + 1));
                        }
                    }
                    return Err(e);
                },
            }
            proof {
                assert(data_zeros(i as nat + 1) =~= data_zeros(i as nat).push(BusEvent::Data(0)));
                assert(self@.bus =~= old(self)@.bus + data_zeros(i as nat + 1));
            }
            i = i + 1;
        }
        let ghost after_data = self@;
        match self.write_command(Instruction::Xaddress(0)) {
            Ok(()) => {},
            Err(e) => {
                proof {
                    assert(0x80u8 | 0 == 0x80u8) by (bit_vector);
                    let k2 = choose|k2: int|
                        0 <= k2 <= 2 && self@.bus == after_data.bus + command_events(
                            after_data,
                            Instruction::Xaddress(0),
                        ).subrange(0, k2);
                    assert(ce.subrange(0, 504 + k2) =~= data_zeros(504) + command_events(
                        after_data,
                        Instruction::Xaddress(0),
                    ).subrange(0, k2));
                    assert(self@.bus =~= old(self)@.bus + ce.subrange(0, 504 + k2));
                }
                return Err(e);
            },
        }
        let ghost after_x = self@;
        match self.write_command(Instruction::Yaddress(0)) {
            Ok(()) => {},
            Err(e) => {
                proof {
                    assert(0x80u8 | 0 == 0x80u8) by (bit_vector);
                    assert(0x40u8 | 0 == 0x40u8) by (bit_vector);
                    assert(after_x.bus =~= old(self)@.bus + ce.subrange(0, 506));
                    let k2 = choose|k2: int|
                        0 <= k2 <= 2 && self@.bus == after_x.bus + command_events(
                            after_x,
                            Instruction::Yaddress(0),
                        ).subrange(0, k2);
                    assert(ce.subrange(0, 506 + k2) =~= ce.subrange(0, 506) + command_events(
                        after_x,
                        Instruction::Yaddress(0),
                    ).subrange(0, k2));
                    assert(self@.bus =~= old(self)@.bus + ce.subrange(0, 506 + k2));
                }
                return Err(e);
            },
        }
        proof {
            assert(0x80u8 | 0 == 0x80u8) by (bit_vector);
            assert(0x40u8 | 0 == 0x40u8) by (bit_vector);
            assert(self@ =~= DriverView {
                x: 0,
                y: 0,
                extended: false,
                bus: old(self)@.bus + clear_events(old(self)@.power_down, old(self)@.vertical),
                ..old(self)@
            });
        }
        Ok(())
    }

    /// Hardware-reset and initialize the chip with the given contrast:
    /// pulse RST low then high, clear the shadow flags and cursor, program
    /// the canonical six-command initialization sequence, then clear the
    /// DDRAM.
    ///
    /// Fails on the first pin or transport error and aborts the remaining
    /// steps; the shadow may then be out of step with the chip, and the
    /// recovery path is to call reset again.
    pub fn reset_with_contrast(&mut self, contrast: u8) -> (r: Result<(), PCDError<E>>)
        requires
            old(self).wf(),
        ensures
            final(self).wf(),
            final(self).base_log() == old(self).base_log(),
            same_text_cursor(old(self)@, final(self)@),
            r is Ok ==> final(self)@ == reset_step(old(self)@, contrast) && final(self).rst_levels() == old(self).rst_levels().push(false).push(true),
            r is Err ==> exists|k: int|
                0 <= k <= reset_events(contrast).len() && final(self)@.bus == old(self)@.bus
                    + reset_events(contrast).subrange(0, k),
    {
        match self.rst.set_low() {
            Ok(()) => {},
            Err(e) => {
                proof {
                    assert(self@.bus =~= old(self)@.bus + reset_events(contrast).subrange(0, 0));
                }
                return Err(PCDError::Pin(e));
            },
        }
        match self.rst.set_high() {
            Ok(()) => {},
            Err(e) => {
                proof {
                    assert(self@.bus =~= old(self)@.bus + reset_events(contrast).subrange(0, 0));
                }
                return Err(PCDError::Pin(e));
            },
        }
        self.power_down = false;
        self.vertical = false;
        self.extended = false;
        self.x = 0;
        self.y = 0;
        let b0 = Instruction::FunctionSet { pd: false, v: false, h: true }.byte();
        let b1 = Instruction::SetVop(contrast).byte();
        let b2 = Instruction::SetTempCoefficient(TemperatureCoefficient::TC2).byte();
        let b3 = Instruction::SetBiasMode(MuxRate::Bias1To48).byte();
        let b4 = Instruction::FunctionSet { pd: false, v: false, h: false }.byte();
        let b5 = Instruction::SetDisplayMode(DisplayMode::Normal).byte();
        let arr: [u8; 6] = [b0, b1, b2, b3, b4, b5];
        proof {
            assert(arr@ =~= init_bytes(contrast));
        }
        match self.write_commands(arr.as_slice()) {
            Ok(()) => {},
            Err(e) => {
                proof {
                    let k = choose|k: int|
                        0 <= k <= arr@.len() && self@.bus == old(self)@.bus + as_commands(
                            arr@.subrange(0, k),
                        );
                    assert(as_commands(arr@.subrange(0, k)) =~= as_commands(arr@).subrange(0, k));
                    assert(reset_events(contrast).subrange(0, k) =~= init_events(
                        contrast,
                    ).subrange(0, k));
                    assert(self@.bus == old(self)@.bus + reset_events(contrast).subrange(0, k));
                }
                return Err(e);
            },
        }
        let ghost after_init = self@;
        match self.hw_cls() {
            Ok(()) => {},
            Err(e) => {
                proof {
                    assert(after_init.bus =~= old(self)@.bus + init_events(contrast));
                    let k2 = choose|k2: int|
                        0 <= k2 <= 508 && self@.bus == after_init.bus + clear_events(
                            after_init.power_down,
                            after_init.vertical,
                        ).subrange(0, k2);
                    assert(reset_events(contrast).subrange(0, 6 + k2) =~= init_events(contrast)
                        + clear_events(false, false).subrange(0, k2));
                    assert(self@.bus =~= old(self)@.bus + reset_events(contrast).subrange(
                        0,
                        6 + k2,
                    ));
                }
                return Err(e);
            },
        }
        proof {
            assert(self@ =~= reset_step(old(self)@, contrast));
        }
        Ok(())
    }

    /// Hardware-reset and initialize the chip with the default contrast.
    pub fn reset(&mut self) -> (r: Result<(), PCDError<E>>)
        requires
            old(self).wf(),
        ensures
            final(self).wf(),
            final(self).base_log() == old(self).base_log(),
            same_text_cursor(old(self)@, final(self)@),
            r is Ok ==> final(self)@ == reset_step(old(self)@, DEFAULT_CONTRAST) && final(self).rst_levels() == old(self).rst_levels().push(false).push(true),
            r is Err ==> exists|k: int|
                0 <= k <= reset_events(DEFAULT_CONTRAST).len() && final(self)@.bus
                    == old(self)@.bus + reset_events(DEFAULT_CONTRAST).subrange(0, k),
    {
        self.reset_with_contrast(DEFAULT_CONTRAST)
    }

    /// Send a bare function-set byte and, on success, make the shadow flags
    /// match it. The chip has a single combined mode register, so all three
    /// bits are always sent together.
    fn apply_function_set(&mut self, pd: bool, vertical: bool, h: bool) -> (r: Result<
        (),
        PCDError<E>,
    >)
        requires
            old(self).wf(),
        ensures
            final(self).wf(),
            final(self).base_log() == old(self).base_log(),
            final(self)@.x == old(self)@.x,
            final(self)@.y == old(self)@.y,
            same_text_cursor(old(self)@, final(self)@),
            r is Ok ==> final(self)@ == (DriverView {
                power_down: pd,
                vertical: vertical,
                extended: h,
                bus: old(self)@.bus.push(BusEvent::Command(function_set_byte(pd, vertical, h))),
                ..old(self)@
            }),
            r is Err ==> same_state_except_bus(old(self)@, final(self)@) && (final(self)@.bus
                == old(self)@.bus || final(self)@.bus == old(self)@.bus.push(
                BusEvent::Command(function_set_byte(pd, vertical, h)),
            )),
    {
        let b = Instruction::FunctionSet { pd, v: vertical, h }.byte();
        let arr: [u8; 1] = [b];
        match self.write_commands(arr.as_slice()) {
            Ok(()) => {},
            Err(e) => {
                proof {
                    let k = choose|k: int|
                        0 <= k <= arr@.len() && self@.bus == old(self)@.bus + as_commands(
                            arr@.subrange(0, k),
                        );
                    if k == 0 {
                        assert(self@.bus =~= old(self)@.bus);
                    } else {
                        assert(arr@.subrange(0, 1) =~= seq![b]);
                        assert(self@.bus =~= old(self)@.bus.push(
                            BusEvent::Command(function_set_byte(pd, vertical, h)),
                        ));
                    }
                }
                return Err(e);
            },
        }
        self.power_down = pd;
        self.vertical = vertical;
        self.extended = h;
        proof {
            assert(arr@ =~= seq![b]);
            assert(self@.bus =~= old(self)@.bus.push(
                BusEvent::Command(function_set_byte(pd, vertical, h)),
            ));
        }
        Ok(())
    }

    /// Power the chip down (`true`) or wake it (`false`), leaving the other
    /// mode flags as they are. A bare function-set byte reflecting all
    /// three flags goes out immediately.
    pub fn set_power_down(&mut self, power_down: bool) -> (r: Result<(), PCDError<E>>)
        requires
            old(self).wf(),
        ensures
            final(self).wf(),
            final(self).base_log() == old(self).base_log(),
            final(self)@.x == old(self)@.x,
            final(self)@.y == old(self)@.y,
            same_text_cursor(old(self)@, final(self)@),
            r is Ok ==> final(self)@ == (DriverView {
                power_down,
                bus: old(self)@.bus.push(
                    BusEvent::Command(
                        function_set_byte(power_down, old(self)@.vertical, old(self)@.extended),
                    ),
                ),
                ..old(self)@
            }),
    {
        let vertical = self.vertical;
        let h = self.extended;
        self.apply_function_set(power_down, vertical, h)
    }

    /// Select horizontal (`false`) or vertical (`true`) DDRAM addressing,
    /// leaving the other mode flags as they are. A bare function-set byte
    /// reflecting all three flags goes out immediately.
    pub fn set_addressing_mode(&mut self, vertical: bool) -> (r: Result<(), PCDError<E>>)
        requires
            old(self).wf(),
        ensures
            final(self).wf(),
            final(self).base_log() == old(self).base_log(),
            final(self)@.x == old(self)@.x,
            final(self)@.y == old(self)@.y,
            same_text_cursor(old(self)@, final(self)@),
            r is Ok ==> final(self)@ == (DriverView {
                vertical,
                bus: old(self)@.bus.push(
                    BusEvent::Command(
                        function_set_byte(old(self)@.power_down, vertical, old(self)@.extended),
                    ),
                ),
                ..old(self)@
            }),
    {
        let pd = self.power_down;
        let h = self.extended;
        self.apply_function_set(pd, vertical, h)
    }

    /// Select the basic (`false`) or extended (`true`) instruction set,
    /// leaving the other mode flags as they are. A bare function-set byte
    /// reflecting all three flags goes out immediately.
    ///
    /// [`PCD8544::write_command`] resends the mode bit before every
    /// instruction anyway, so this matters only for raw data traffic.
    pub fn enable_extended_commands(&mut self, enabled: bool) -> (r: Result<(), PCDError<E>>)
        requires
            old(self).wf(),
        ensures
            final(self).wf(),
            final(self).base_log() == old(self).base_log(),
            final(self)@.x == old(self)@.x,
            final(self)@.y == old(self)@.y,
            same_text_cursor(old(self)@, final(self)@),
            r is Ok ==> final(self)@ == (DriverView {
                extended: enabled,
                bus: old(self)@.bus.push(
                    BusEvent::Command(
                        function_set_byte(old(self)@.power_down, old(self)@.vertical, enabled),
                    ),
                ),
                ..old(self)@
            }),
    {
        let pd = self.power_down;
        let vertical = self.vertical;
        self.apply_function_set(pd, vertical, enabled)
    }

    /// Change what the display shows (blank, normal, all-on, inverse).
    pub fn set_display_mode(&mut self, mode: DisplayMode) -> (r: Result<(), PCDError<E>>)
        requires
            old(self).wf(),
        ensures
            final(self).wf(),
            final(self).base_log() == old(self).base_log(),
            r is Ok ==> final(self)@ == command_step(
                old(self)@,
                Instruction::SetDisplayMode(mode),
            ),
            r is Err ==> same_state_except_bus(old(self)@, final(self)@),
    {
        self.write_command(Instruction::SetDisplayMode(mode))
    }

    /// Program the bias voltage level for the LCD glass's multiplex ratio.
    pub fn set_bias_mode(&mut self, bias: MuxRate) -> (r: Result<(), PCDError<E>>)
        requires
            old(self).wf(),
        ensures
            final(self).wf(),
            final(self).base_log() == old(self).base_log(),
            r is Ok ==> final(self)@ == command_step(old(self)@, Instruction::SetBiasMode(bias)),
            r is Err ==> same_state_except_bus(old(self)@, final(self)@),
    {
        self.write_command(Instruction::SetBiasMode(bias))
    }

    /// Program the temperature compensation curve.
    pub fn set_temperature_coefficient(&mut self, coefficient: TemperatureCoefficient) -> (r:
        Result<(), PCDError<E>>)
        requires
            old(self).wf(),
        ensures
            final(self).wf(),
            final(self).base_log() == old(self).base_log(),
            r is Ok ==> final(self)@ == command_step(
                old(self)@,
                Instruction::SetTempCoefficient(coefficient),
            ),
            r is Err ==> same_state_except_bus(old(self)@, final(self)@),
    {
        self.write_command(Instruction::SetTempCoefficient(coefficient))
    }

    /// Program the LCD drive voltage, i.e. the contrast. Values of 128 and
    /// above are masked to seven bits, not saturated.
    pub fn set_contrast(&mut self, contrast: u8) -> (r: Result<(), PCDError<E>>)
        requires
            old(self).wf(),
        ensures
            final(self).wf(),
            final(self).base_log() == old(self).base_log(),
            r is Ok ==> final(self)@ == command_step(old(self)@, Instruction::SetVop(contrast)),
            r is Err ==> same_state_except_bus(old(self)@, final(self)@),
    {
        self.write_command(Instruction::SetVop(contrast))
    }

    /// Switch the backlight on or off. The LIGHT line is driven low to
    /// light up: this core fixes active-low polarity, and boards wired the
    /// other way must invert in their pin adapter.
    pub fn set_light(&mut self, enabled: bool) -> (r: Result<(), PCDError<E>>)
        requires
            old(self).wf(),
        ensures
            final(self).wf(),
            final(self).base_log() == old(self).base_log(),
            final(self)@ == old(self)@,
            r is Ok ==> final(self).light_levels() == old(self).light_levels().push(!enabled),
    {
        let res = if enabled {
            self.light.set_low()
        } else {
            self.light.set_high()
        };
        match res {
            Ok(()) => Ok(()),
            Err(e) => Err(PCDError::Pin(e)),
        }
    }

    /// Well-formedness makes the shadow cursors sit inside their grids.
    pub proof fn lemma_wf(&self)
        requires
            self.wf(),
        ensures
            view_wf(self@),
    {
    }

    /// Move the shadow text cursor, with no bus traffic. The text view owns
    /// the policy of when this is allowed to happen.
    pub(crate) fn set_text_cursor(&mut self, col: u8, row: u8)
        requires
            old(self).wf(),
            col < 14,
            row < 6,
        ensures
            final(self).wf(),
            final(self).base_log() == old(self).base_log(),
            final(self)@ == (DriverView { col, row, ..old(self)@ }),
            final(self).rst_levels() == old(self).rst_levels(),
            final(self).light_levels() == old(self).light_levels(),
            final(self).dc_levels() == old(self).dc_levels(),
            final(self).ce_levels() == old(self).ce_levels(),
            final(self).transport_log() == old(self).transport_log(),
    {
        self.text_col = col;
        self.text_row = row;
    }

    /// The text cursor's column within the current row, below 14.
    pub fn pos(&self) -> (r: u8)
        ensures
            r == self@.col,
    {
        self.text_col
    }

    /// The text cursor's row, below 6.
    pub fn row(&self) -> (r: u8)
        ensures
            r == self@.row,
    {
        self.text_row
    }

    /// Move the DDRAM write pointer to pixel column `x % 84`: the modulo
    /// range-check upstream of the raw X-address instruction.
    pub fn set_x_position(&mut self, x: u8) -> (r: Result<(), PCDError<E>>)
        requires
            old(self).wf(),
        ensures
            final(self).wf(),
            final(self).base_log() == old(self).base_log(),
            r is Ok ==> final(self)@ == command_step(
                old(self)@,
                Instruction::Xaddress((x % 84) as u8),
            ),
            r is Err ==> same_state_except_bus(old(self)@, final(self)@),
    {
        self.write_command(Instruction::Xaddress(x % 84))
    }

    /// Move the DDRAM write pointer to bank `y % 6`: the modulo range-check
    /// upstream of the raw Y-address instruction.
    pub fn set_y_position(&mut self, y: u8) -> (r: Result<(), PCDError<E>>)
        requires
            old(self).wf(),
        ensures
            final(self).wf(),
            final(self).base_log() == old(self).base_log(),
            r is Ok ==> final(self)@ == command_step(
                old(self)@,
                Instruction::Yaddress((y % 6) as u8),
            ),
            r is Err ==> same_state_except_bus(old(self)@, final(self)@),
    {
        self.write_command(Instruction::Yaddress(y % 6))
    }

    /// The shadow of the chip's DDRAM column pointer, below 84.
    pub fn x(&self) -> (r: u8)
        ensures
            r == self@.x,
    {
        self.x
    }

    /// The shadow of the chip's DDRAM bank pointer, below 6.
    pub fn y(&self) -> (r: u8)
        ensures
            r == self@.y,
    {
        self.y
    }
}

/// A full hardware clear transmits exactly 504 data bytes, all zero: the
/// first 504 bus events of [`clear_events`] are zero data bytes and the
/// remaining 4 are the address-reset commands.
pub proof fn lemma_clear_events_data(pd: bool, vertical: bool)
    ensures
        clear_events(pd, vertical).len() == 508,
        forall|i: int|
            0 <= i < 504 ==> #[trigger] clear_events(pd, vertical)[i] == BusEvent::Data(0),
        forall|i: int| 504 <= i < 508 ==> !(#[trigger] clear_events(pd, vertical)[i].is_data()),
{
}

/// Flattened shadow-cursor position: the bank-major byte index inside the
/// 504-byte DDRAM.
pub open spec fn cursor_index(x: u8, y: u8) -> int {
    y * 84 + x
}

/// A single cursor advance adds one to the flattened position, modulo the
/// DDRAM size, and stays inside the grid.
pub proof fn lemma_cursor_next_index(x: u8, y: u8)
    requires
        x < 84,
        y < 6,
    ensures
        ({
            let (a, b) = cursor_next(x, y);
            a < 84 && b < 6 && cursor_index(a, b) == (cursor_index(x, y) + 1) % 504
        }),
{
    let (a, b) = cursor_next(x, y);
    if cursor_index(x, y) + 1 == 504 {
        vstd::arithmetic::div_mod::lemma_mod_self_0(504);
    } else {
        vstd::arithmetic::div_mod::lemma_small_mod((cursor_index(x, y) + 1) as nat, 504);
    }
}

/// Cursor arithmetic over a run of data bytes: after `n` advances from
/// `(x, y)`, the flattened position is the starting position plus `n`,
/// modulo the DDRAM size. Writing data is adding to a counter modulo 504.
pub proof fn lemma_cursor_after_index(x: u8, y: u8, n: nat)
    requires
        x < 84,
        y < 6,
    ensures
        ({
            let (a, b) = cursor_after(x, y, n);
            a < 84 && b < 6 && cursor_index(a, b) == (cursor_index(x, y) + n) % 504
        }),
    decreases n,
{
    if n == 0 {
        vstd::arithmetic::div_mod::lemma_small_mod(cursor_index(x, y) as nat, 504);
    } else {
        lemma_cursor_after_index(x, y, (n - 1) as nat);
        let (a, b) = cursor_after(x, y, (n - 1) as nat);
        lemma_cursor_next_index(a, b);
        vstd::arithmetic::div_mod::lemma_add_mod_noop(cursor_index(x, y) + n - 1, 1, 504);
        vstd::arithmetic::div_mod::lemma_small_mod(1, 504);
    }
}

/// Cursor arithmetic, component form: after `n` advances from `(x, y)` the
/// column is `(x + n) % 84` and the bank is `(y + (x + n) / 84) % 6`.
pub proof fn lemma_cursor_after_components(x: u8, y: u8, n: nat)
    requires
        x < 84,
        y < 6,
    ensures
        ({
            let (a, b) = cursor_after(x, y, n);
            a == (x + n) % 84 && b == (y + (x + n) / 84) % 6
        }),
{
    lemma_cursor_after_index(x, y, n);
    let (a, b) = cursor_after(x, y, n);
    let t = x + n;
    let q = y + t / 84;
    let r = t % 84;
    vstd::arithmetic::div_mod::lemma_fundamental_div_mod(t as int, 84);
    vstd::arithmetic::div_mod::lemma_mod_pos_bound(t as int, 84);
    // 84 * y + t == 84 * q + r, so the flattened start plus n is 84*q + r.
    assert(cursor_index(x, y) + n == 84 * q + r) by (nonlinear_arith)
        requires
            t == x + n,
            q == y + t / 84,
            r == t % 84,
            t == 84 * (t / 84) + r,
            cursor_index(x, y) == y * 84 + x,
    ;
    // 84*q + r == 504*(q/6) + (84*(q%6) + r), with the remainder in range.
    vstd::arithmetic::div_mod::lemma_fundamental_div_mod(q, 6);
    vstd::arithmetic::div_mod::lemma_mod_pos_bound(q, 6);
    assert(84 * q + r == 504 * (q / 6) + (84 * (q % 6) + r)) by (nonlinear_arith)
        requires
            q == 6 * (q / 6) + q % 6,
    ;
    vstd::arithmetic::div_mod::lemma_fundamental_div_mod_converse(
        84 * q + r,
        504,
        q / 6,
        84 * (q % 6) + r,
    );
    assert(cursor_index(a, b) == 84 * (q % 6) + r);
    // Two bank-major decompositions of the same index agree componentwise.
    vstd::arithmetic::div_mod::lemma_fundamental_div_mod_converse(
        cursor_index(a, b),
        84,
        b as int,
        a as int,
    );
    vstd::arithmetic::div_mod::lemma_fundamental_div_mod_converse(
        cursor_index(a, b),
        84,
        q % 6,
        r,
    );
}

} // verus!
