//! Board identification, serial divisors, mailbox messages, console
//! and system identity.

use rydia::emcon::EmConsole;
use rydia::fb::Fb;
use rydia::font::{FixedFontDriver, FontManager};
use rydia::gpio::Gpio;
use rydia::mbox::{Mbox, MboxContext, RawTag, Tag};
use rydia::raspi::{machine_type_of, mmio_base, MachineType};
use rydia::system::{System, Version};
use rydia::uart::Uart;

#[test]
fn machine_type_follows_the_part_number() {
    assert_eq!(machine_type_of(0xD03 << 4), MachineType::RPi3);
    assert_eq!(machine_type_of(0xD08 << 4), MachineType::RPi4);
    assert_eq!(machine_type_of(0xB76 << 4), MachineType::Unknown);
}

#[test]
fn mmio_window_follows_the_machine_type() {
    assert_eq!(mmio_base(MachineType::Unknown), 0x2000_0000);
    assert_eq!(mmio_base(MachineType::RPi3), 0x3F00_0000);
    assert_eq!(mmio_base(MachineType::RPi4), 0xFE00_0000);
    assert_eq!(rydia::raspi::max_pa().as_u64(), 0x1_0000_0000);
}

#[test]
fn baud_divisor_matches_the_clock() {
    assert_eq!(Uart::baud(115200), 541);
    assert_eq!(Uart::mu_baud(115200), 541);
    assert_eq!(Uart::baud(0), 0);
    let _ = Uart::shared();
}

#[test]
fn mailbox_message_lays_out_its_tags() {
    let mut m: MboxContext = Mbox::PROP.mbox(10).expect("ten words suffice");
    assert_eq!(m.slice()[0], 12);
    let index = m.append(Tag::SET_CLKRATE(rydia::mbox::ClockId::UART, 3_000_000, 0)).unwrap();
    assert_eq!(index, 5);
    let words = m.slice();
    assert_eq!(words[0], 9 * 4, "three header, three tag header, three values");
    assert_eq!(words[2], RawTag::SETCLKRATE.as_u32());
    assert_eq!(words[3], 12);
    assert_eq!(words[5], 2, "the UART clock id");
    assert_eq!(words[6], 3_000_000);
    assert_eq!(words[8], 0, "the message is resealed");
    assert_eq!(m.mbox_addr(0x100), 0x108);
}

#[test]
fn mailbox_refuses_what_cannot_fit() {
    assert!(Mbox::PROP.mbox(2).is_none());
    let mut m = Mbox::PROP.mbox(5).unwrap();
    assert!(m.append(Tag::SET_PHYWH(640, 480)).is_err(), "six words do not fit in five");
}

#[test]
fn framebuffer_request_is_assembled_at_fixed_indexes() {
    let (m, ivwh, ifb, ipitch) = Fb::build_init_request(1280, 720).expect("36 words suffice");
    assert_eq!((ivwh, ifb, ipitch), (10, 28, 33));
    let words = m.slice();
    assert_eq!(words[ivwh], 1280);
    assert_eq!(words[ivwh + 1], 720);
    // pretend the firmware answered, then decode
    let (ptr, w, h, stride) = Fb::parse_init_response(&m, ivwh, ifb, ipitch);
    assert_eq!((w, h), (1280, 720));
    assert_eq!(ptr, words[ifb] & 0x3FFF_FFFF);
    assert_eq!(stride, words[ipitch] / 4);
    let (m2, i2) = Fb::build_get_fb_request().unwrap();
    assert_eq!(i2, 5);
    let _ = Fb::parse_get_fb_response(&m2, i2);
}

#[test]
fn console_cursor_wraps_scrolls_and_edits() {
    let font = FontManager::preferred_console_font(vec![0u8; 0x600]);
    let (cols, rows) = (4usize, 2usize);
    let mut con = EmConsole::new(font);

    let a = con.write_char('A', cols, rows);
    assert_eq!(a.glyph, Some(('A', 0, 0)));
    assert!(!a.scrolled);
    con.write_char('B', cols, rows);
    con.write_char('C', cols, rows);
    con.write_char('D', cols, rows);
    // the cursor sits past the right edge; the next glyph wraps
    let e = con.write_char('E', cols, rows);
    assert_eq!(e.glyph, Some(('E', 0, 1)));
    // a newline on the bottom row forces a scroll on the next glyph
    con.write_char('\n', cols, rows);
    let f = con.write_char('F', cols, rows);
    assert!(f.scrolled);
    assert_eq!(f.glyph, Some(('F', 0, 1)));
    // carriage return and backspace move without drawing
    let r = con.write_char('\r', cols, rows);
    assert!(r.glyph.is_none());
    let g = con.write_char('G', cols, rows);
    assert_eq!(g.glyph, Some(('G', 0, 1)));
    let bs = con.write_char('\u{8}', cols, rows);
    assert!(bs.glyph.is_none());
}

#[test]
fn console_dims_divide_out_the_font_cell() {
    let font = FontManager::fixed_system_font(vec![0u8; 0x600]);
    let con = EmConsole::new(font);
    // 8 x 16 font, 20-line spacing, 8-pixel padding all round
    assert_eq!(con.dims(1280, 720), ((1280 - 16) / 8, (720 - 16) / 20));
}

#[test]
fn fixed_font_geometry_and_glyph_lookup() {
    let mut data = vec![0u8; 0x600];
    data[16] = 0xAA;
    let font = FixedFontDriver::new(8, 16, data);
    assert_eq!(font.width(), 8);
    assert_eq!(font.line_height(), 20);
    assert_eq!(font.fix_y(), 2);
    let glyph = font.glyph_for('!').expect("printable");
    assert_eq!(glyph.len(), 16);
    assert_eq!(glyph[0], 0xAA, "the second cell belongs to '!'");
    assert!(font.glyph_for(' ').is_none());
    assert!(font.glyph_for('\u{80}').is_none());
}

#[test]
fn system_identity_and_version() {
    assert_eq!(System::name(), "rydia");
    assert_eq!(System::codename(), "RYDIA");
    assert_eq!(System::short_name(), "rydia");
    let v = System::version();
    assert_eq!(v.as_u32(), 1);
    assert_eq!((v.maj(), v.min(), v.patch()), (0, 0, 1));
    assert_eq!(v.rel(), "");
    let packed = Version::new(1, 2, 3, "rc");
    assert_eq!(packed.as_u32(), 0x0102_0003);
    assert_eq!((packed.maj(), packed.min(), packed.patch(), packed.rel()), (1, 2, 3, "rc"));
}

#[test]
fn the_system_keeps_its_device_tree() {
    let mut sys = System::new();
    assert!(sys.device_tree().is_none());
    assert!(sys.model_name().is_none());
}

#[test]
fn gpio_fields_land_in_the_right_registers() {
    assert_eq!(Gpio::UART0_TXD.pin_number(), 14);
    assert_eq!(Gpio::UART0_RXD.pin_number(), 15);

    // function select: three bits, ten fields per register
    let (pull, func) = Gpio::UART0_TXD.use_as_alt5();
    assert_eq!((pull.reg_offset, pull.shift, pull.mask, pull.value), (0xE4, 28, 3, 0));
    assert_eq!((func.reg_offset, func.shift, func.mask, func.value), (4, 12, 7, 2));
    let applied = Gpio::apply_field_write(0xFFFF_FFFF, &func);
    assert_eq!(applied, (0xFFFF_FFFF & !(7 << 12)) | (2 << 12));

    let (_, alt0) = Gpio::UART0_RXD.use_as_alt0();
    assert_eq!((alt0.reg_offset, alt0.shift, alt0.value), (4, 15, 4));
    let (_, alt3) = Gpio::Pin04.use_as_alt3();
    assert_eq!((alt3.reg_offset, alt3.shift, alt3.value), (0, 12, 7));
    let (_, out) = Gpio::Pin42.init_output_pin_with_pull_none();
    assert_eq!((out.reg_offset, out.shift, out.value), (0x10, 6, 1));

    // output set and clear rows hold one bit per pin
    let set = Gpio::Pin42.set_output(true);
    assert_eq!((set.reg_offset, set.shift, set.mask, set.value), (0x20, 10, 1, 1));
    let clear = Gpio::Pin42.set_output(false);
    assert_eq!((clear.reg_offset, clear.shift), (0x2C, 10));
}
