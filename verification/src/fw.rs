//! Firmware generators for the replacement board: bootloader, MMIO
//! translation HAL, interrupt table, timing compensation, bare-metal drivers,
//! build system and linker script, all as C / make / ld text.

use vstd::prelude::*;
use crate::hw::{
    BlockKind, ComponentAssignment, FunctionalBlock, HardwareSpec, InterruptSpec, IrqType,
    MemoryRegion, Register, SynthesizedSpec,
};
use crate::text::{dec, hex_w, push_dec, push_hex_w, str_eq, occurs_in, lemma_occurs_around, lemma_occurs_self};

verus! {

// ---------------------------------------------------------------------------
// Fixed text
// ---------------------------------------------------------------------------

/// Bootloader prologue: includes and forward declarations.
pub const BOOT_PROLOGUE: &'static str = "/* B.A.S.E. Generated Bootloader */\n#\x69nclude <stdint.h>\n#\x69nclude <stdbool.h>\n\n// Forward declarations\nstatic void system_clock_init(void);\nstatic void dram_init(void);\nstatic void mmu_init(void);\nstatic void load_firmware(void);\nstatic void jump_to_entry(void);\n\n";

/// Bootloader entry point.
pub const BOOT_MAIN: &'static str = "void bootloader_main(void) {\n    // Step 1: Configure system clocks\n    system_clock_init();\n\n    // Step 2: Initialize DRAM\n    dram_init();\n\n    // Step 3: Set up MMU translation tables\n    mmu_init();\n\n    // Step 4: Load original firmware\n    load_firmware();\n\n    // Step 5: Jump to entry point\n    jump_to_entry();\n}\n\n";

/// Clock setup, up to the original clock value.
pub const BOOT_CLOCK_HEAD: &'static str = "static void system_clock_init(void) {\n    // Target: RP2350 PLL\n    // Original clock: ";

/// Clock setup after the original clock value.
pub const BOOT_CLOCK_TAIL: &'static str = " MHz\n\n    // Configure PLL_SYS for 150 MHz\n    pll_init(PLL_SYS, 150 * MHZ);\n\n    // Configure PLL_USB for 48 MHz\n    pll_init(PLL_USB, 48 * MHZ);\n\n    // Switch system clock to PLL_SYS\n    clock_configure(clk_sys,\n                    CLOCKS_CLK_SYS_CTRL_SRC_VALUE_CLKSRC_CLK_SYS_AUX,\n                    CLOCKS_CLK_SYS_CTRL_AUXSRC_VALUE_CLKSRC_PLL_SYS);\n}\n\n";

/// Memory setup, up to the size of the first region.
pub const BOOT_DRAM_HEAD: &'static str = "static void dram_init(void) {\n    // Target memory: ";

/// Memory setup after the base of the first region.
pub const BOOT_DRAM_TAIL: &'static str = "\n\n    // Configure PSRAM via QSPI\n    psram_init();\n\n    // Memory test (quick verify)\n    if (!mem_test()) {\n        while(1); // hang on memory failure\n    }\n}\n\n";

/// MMU setup.
pub const BOOT_MMU: &'static str = "static void mmu_init(void) {\n    // Section-based MMU translation tables\n    // Maps original MMIO addresses to new hardware\n\n    // Identity map first 1MB (flash + SRAM)\n    mmu_map_page(0x00000000, 0x00000000, MMU_CACHE_WRITE_BACK);\n\n    // Device memory (non-cacheable)\n    mmu_map_range(PERIPHERAL_BASE, PERIPHERAL_BASE + 0x100000,\n                  MMU_DEVICE);\n}\n\n";

/// Head of the bootloader's MMIO map.
pub const BOOT_MMIO_HEAD: &'static str = "// MMIO Translation Table\n// Original \u{2192} New hardware mapping\nstatic const struct {\n    uint32_t original_base;\n    uint32_t new_base;\n    uint32_t size;\n} mmio_map[] = {\n";

/// Tail of a translation table with three columns.
pub const BOOT_MMIO_TAIL: &'static str = "    { 0, 0, 0 } /* sentinel */\n};\n\n";

/// Firmware copy and jump to its entry point.
pub const BOOT_LOADER: &'static str = "static void load_firmware(void) {\n    \x65xtern uint8_t _binary_firmware_bin_start;\n    \x65xtern uint8_t _binary_firmware_bin_end;\n    \x65xtern uint8_t _fw_load_addr;\n\n    uint32_t fw_size = &_binary_firmware_bin_end\n                   - &_binary_firmware_bin_start;\n    uint8_t *src = &_binary_firmware_bin_start;\n    uint8_t *dst = &_fw_load_addr;\n\n    // Copy firmware (Cortex-M33 / Thumb-2 compatible)\n    while (fw_size--) {\n        *dst++ = *src++;\n    }\n    __asm__ volatile (\"dsb\" ::: \"memory\");\n}\n\nstatic void __attribute__((noreturn)) jump_to_entry(void) {\n    typedef void (*entry_t)(void);\n    entry_t entry = (entry_t)(uintptr_t)&_fw_load_addr;\n    __asm__ volatile (\"isb\" ::: \"memory\");\n    __set_MSP(0x20040000);  // set stack pointer for firmware\n    entry();\n    while(1);\n}\n";

/// HAL banner, up to the target name.
pub const HAL_HEAD: &'static str = "/* B.A.S.E. Generated HAL \u{2014} MMIO Translation Layer */\n/* Target: ";

/// HAL includes after the target name.
pub const HAL_INCLUDES: &'static str = " */\n\n#\x69nclude <stdint.h>\n#\x69nclude <stdbool.h>\n\n";

/// HAL register access macros.
pub const HAL_PREAMBLE: &'static str = "// Register access macros\n#define REG32(addr) (*(volatile uint32_t *)(addr))\n#define REG8(addr)  (*(volatile uint8_t *)(addr))\n\n#define MMIO_TRAP_SIZE 256\n\n";

/// Head of the HAL translation table.
pub const HAL_TABLE_HEAD: &'static str = "// MMIO Translation Table\n// Maps original addresses to new hardware\nstatic const struct {\n    uint32_t base;\n    uint32_t size;\n    uint32_t target_base;\n    uint8_t strategy; // 0=MMU, 1=TRAP, 2=PIO\n} mmio_translation[] = {\n";

/// Tail of the HAL translation table.
pub const HAL_TABLE_TAIL: &'static str = "    { 0, 0, 0, 0 } /* sentinel */\n};\n\n";

/// MMIO read handler.
pub const HAL_READ: &'static str = "// MMIO Read Handler\n// Reads from original address, translates to new hardware\nuint32_t mmio_read(uint32_t addr) {\n    // Search translation table\n    for (int i = 0; mmio_translation[i].base != 0; i++) {\n        if (addr >= mmio_translation[i].base &&\n            addr < mmio_translation[i].base + mmio_translation[i].size) {\n            uint32_t offset = addr - mmio_translation[i].base;\n            uint32_t target = mmio_translation[i].target_base + offset;\n\n            switch (mmio_translation[i].strategy) {\n                case 0: // Direct MMU mapping\n                    return REG32(target);\n                case 1: // Trap handler\n                    return handle_mmio_trap_read(target, offset);\n                case 2: // PIO emulation\n                    return pio_emulation_read(target);\n                default:\n                    return 0;\n            }\n        }\n    }\n    return 0;\n}\n\n";

/// MMIO write handler, followed by the heading of the block handlers.
pub const HAL_WRITE: &'static str = "// MMIO Write Handler\nvoid mmio_write(uint32_t addr, uint32_t value) {\n    for (int i = 0; mmio_translation[i].base != 0; i++) {\n        if (addr >= mmio_translation[i].base &&\n            addr < mmio_translation[i].base + mmio_translation[i].size) {\n            uint32_t offset = addr - mmio_translation[i].base;\n            uint32_t target = mmio_translation[i].target_base + offset;\n\n            switch (mmio_translation[i].strategy) {\n                case 0:\n                    REG32(target) = value;\n                    return;\n                case 1:\n                    handle_mmio_trap_write(target, offset, value);\n                    return;\n                case 2:\n                    pio_emulation_write(target, value);\n                    return;\n            }\n        }\n    }\n}\n\n// Block-specific handlers\n\n";

/// Opening of the GPU write handler.
pub const HAL_GPU_OPEN: &'static str = "static void handle_gpu_write(uint32_t offset, uint32_t value) {\n    switch (offset) {\n";

/// Body of one GPU register case.
pub const HAL_GPU_CASE_BODY: &'static str = "            gpu_reg_write(offset, value);\n            break;\n";

/// Closing of the GPU write handler.
pub const HAL_GPU_CLOSE: &'static str = "        default:\n            break;\n    }\n}\n\n";

/// Audio write handler body.
pub const HAL_AUDIO_BODY: &'static str = "static void handle_audio_write(uint32_t offset, uint32_t value) {\n    // Map to I2S PIO state machine\n    pio_sm_put_blocking(pio0, 0, value);\n}\n\n";

/// DMA write handler body.
pub const HAL_DMA_BODY: &'static str = "static void handle_dma_write(uint32_t offset, uint32_t value) {\n    // Map to RP2350 DMA controller\n    dma_channel_config cfg = dma_channel_get_default_config(0);\n    channel_config_set_transfer_data_size(&cfg, DMA_SIZE_32);\n    dma_channel_configure(0, &cfg,\n        dma_target,  // write address\n        dma_source,  // read address\n        dma_count,   // number of transfers\n        true);       // start\n}\n\n";

/// Head of the interrupt table.
pub const IRQ_HEAD: &'static str = "/* B.A.S.E. Generated IRQ Translation Table */\n#\x69nclude <stdint.h>\n#\x69nclude <stdbool.h>\n\n// Original \u{2192} Target IRQ mapping\nstatic const struct {\n    uint8_t original_vector;\n    uint8_t target_irq;\n    const char *owner;\n    bool needs_ack;\n} irq_translation[] = {\n";

/// Interrupt table sentinel, dispatcher and initialization.
pub const IRQ_TAIL: &'static str = "    { 0, 0, NULL, false } /* sentinel */\n};\n\n// Interrupt handler dispatch\nvoid __attribute__((interrupt)) irq_handler(void) {\n    uint32_t pending = __get_IPSR() & 0xFF;\n\n    for (int i = 0; irq_translation[i].owner != NULL; i++) {\n        if (irq_translation[i].target_irq == pending) {\n            // Call block-specific handler\n            if (irq_translation[i].needs_ack) {\n                NVIC_ClearPendingIRQ(pending);\n            }\n            return;\n        }\n    }\n}\n\n// Initialize all interrupts\nvoid irq_init(void) {\n    for (int i = 0; irq_translation[i].owner != NULL; i++) {\n        NVIC_SetPriority(irq_translation[i].target_irq, 1);\n        NVIC_EnableIRQ(irq_translation[i].target_irq);\n    }\n}\n";

/// Timing compensation prologue, up to the per-block delays.
pub const TIMING_HEAD: &'static str = "/* B.A.S.E. Generated Timing Compensation */\n#\x69nclude <stdint.h>\n#\x69nclude <stdbool.h>\n#\x69nclude \"hardware/timer.h\"\n\n// Timing compensation delays\n// Injects artificial delays where new HW is faster than original\n\nstatic inline void delay_us(uint32_t us) {\n    busy_wait_us_32(us);\n}\n\n// Per-block timing compensation (if applicable)\nvoid timing_compensate(const char *block_id, uint32_t operation) {\n    (void)block_id;\n    (void)operation;\n\n";

/// End of the compensation function and head of the timing table.
pub const TIMING_MID: &'static str = "}\n\n// Original system timing profile (for validation)\nstatic const struct {\n    const char *block;\n    uint32_t min_ns;\n    uint32_t max_ns;\n    uint32_t avg_ns;\n} original_timing[] = {\n";

/// Timing table sentinel.
pub const TIMING_TAIL: &'static str = "    { NULL, 0, 0, 0 } /* sentinel */\n};\n";

/// Head of the bare-metal drivers file.
pub const DRIVERS_HEAD: &'static str = "/* B.A.S.E. Generated Bare-metal Drivers */\n\n#\x69nclude <stdint.h>\n#\x69nclude <stdbool.h>\n\n";

/// SPI driver.
pub const SPI_DRIVER: &'static str = "// SPI Driver (RP2350)\nstatic void spi_init(void) {\n    spi_init(spi0, 10 * 1000 * 1000); // 10 MHz\n    gpio_set_function(2, GPIO_FUNC_SPI); // SCK\n    gpio_set_function(3, GPIO_FUNC_SPI); // TX\n    gpio_set_function(4, GPIO_FUNC_SPI); // RX\n    gpio_set_function(5, GPIO_FUNC_SPI); // CS\n}\n\nstatic uint8_t spi_xfer(uint8_t tx) {\n    uint8_t rx = 0;\n    spi_write_read_blocking(spi0, &tx, &rx, 1);\n    return rx;\n}\n\n";

/// I2C driver.
pub const I2C_DRIVER: &'static str = "// I2C Driver (RP2350)\nstatic void i2c_init(void) {\n    i2c_init(i2c0, 400 * 1000); // 400 kHz\n    gpio_set_function(0, GPIO_FUNC_I2C); // SDA\n    gpio_set_function(1, GPIO_FUNC_I2C); // SCL\n}\n\n";

/// UART driver.
pub const UART_DRIVER: &'static str = "// UART Driver (RP2350)\nstatic void uart_init(void) {\n    uart_init(uart0, 115200);\n    gpio_set_function(0, GPIO_FUNC_UART); // TX\n    gpio_set_function(1, GPIO_FUNC_UART); // RX\n}\n\nstatic void uart_putc(char c) {\n    uart_putc_raw(uart0, c);\n}\n\n";

/// USB device driver.
pub const USB_DRIVER: &'static str = "// USB Driver (RP2350 device mode)\nstatic void usb_init(void) {\n    tusb_init();\n}\n\nstatic void usb_task(void) {\n    tud_task();\n}\n\n";

/// GPIO driver.
pub const GPIO_DRIVER: &'static str = "// GPIO Driver (RP2350)\nstatic void gpio_init(void) {\n    // Configure GPIOs\n    gpio_init(6);\n    gpio_set_dir(6, GPIO_OUT);\n    gpio_put(6, 0);\n}\n\n";

/// Makefile of the generated firmware.
pub const MAKEFILE: &'static str = "# B.A.S.E. Generated Makefile\n\nCC = arm-none-eabi-gcc\nCFLAGS = -mcpu=cortex-m33 -mthumb -O2 -Wall -Wextra\nLDFLAGS = -T linker.ld --specs=nosys.specs\n\nSRCS = bootloader.c hal_mmio.c timing.c irq.c drivers.c main.c\nOBJS = $(SRCS:.c=.o)\n\nall: firmware.elf\n\nfirmware.elf: $(OBJS)\n\t$(CC) $(CFLAGS) $(LDFLAGS) -o $@ $^\n\nclean:\n\trm -f $(OBJS) firmware.elf\n";

/// Linker script of the generated firmware.
pub const LINKER_SCRIPT: &'static str = "/* B.A.S.E. Generated Linker Script */\n\nMEMORY\n{\n    FLASH (rx)  : ORIGIN = 0x10000000, LENGTH = 4M\n    SRAM  (rwx) : ORIGIN = 0x20000000, LENGTH = 520K\n    PSRAM (rw)  : ORIGIN = 0x30000000, LENGTH = 8M\n}\n\nSECTIONS\n{\n    .text : { *(.text*) } > FLASH\n    .data : { *(.data*) } > SRAM AT > FLASH\n    .bss  : { *(.bss*)  } > SRAM\n    .fw_load : { _fw_load_addr = .; } > PSRAM\n}\n";

// ---------------------------------------------------------------------------
// Bootloader
// ---------------------------------------------------------------------------

/// Generator of the bootloader.
pub struct BootloaderGenerator;

/// The bootloader's relocated MMIO window of a block lies below 2^64.
pub open spec fn boot_relocatable(bs: Seq<FunctionalBlock>) -> bool {
    forall|i: int| 0 <= i < bs.len() ==> (#[trigger] bs[i]).base_address + 0x1000 <= u64::MAX
}

/// Clock setup for an original clock of `mhz`.
pub open spec fn boot_clock_text(mhz: u32) -> Seq<char> {
    BOOT_CLOCK_HEAD@ + dec(mhz as nat) + BOOT_CLOCK_TAIL@
}

/// Memory setup: size (MiB) and base of the first region, if any.
pub open spec fn boot_dram_text(regions: Seq<MemoryRegion>) -> Seq<char> {
    BOOT_DRAM_HEAD@ + dec(if regions.len() > 0 { regions[0].size as nat / 1048576 } else { 0 })
        + " MB at 0x"@ + (if regions.len() > 0 {
        hex_w(regions[0].base as nat, 8)
    } else {
        Seq::empty()
    }) + BOOT_DRAM_TAIL@
}

/// One row of the bootloader's MMIO map: the block moves up by 4 KiB.
pub open spec fn boot_mmio_line(b: FunctionalBlock) -> Seq<char> {
    "    { 0x"@ + hex_w(b.base_address as nat, 8) + ", 0x"@ + hex_w(b.base_address as nat + 0x1000, 8)
        + ", 0x1000 }, // "@ + b.id@ + "\n"@
}

/// Rows of the bootloader's MMIO map.
pub open spec fn boot_mmio_lines(bs: Seq<FunctionalBlock>) -> Seq<char>
    decreases bs.len(),
{
    if bs.len() == 0 {
        Seq::empty()
    } else {
        boot_mmio_lines(bs.drop_last()) + boot_mmio_line(bs.last())
    }
}

/// The bootloader of a specification.
pub open spec fn bootloader_text(spec: HardwareSpec) -> Seq<char> {
    BOOT_PROLOGUE@ + BOOT_MAIN@ + boot_clock_text(spec.cpu.clock_mhz) + boot_dram_text(
        spec.memory.regions@,
    ) + BOOT_MMU@ + BOOT_MMIO_HEAD@ + boot_mmio_lines(spec.blocks@) + BOOT_MMIO_TAIL@
        + BOOT_LOADER@
}

fn push_boot_mmio_line(s: &mut String, b: &FunctionalBlock)
    requires
        b.base_address + 0x1000 <= u64::MAX,
    ensures
        final(s)@ == old(s)@ + boot_mmio_line(*b),
{
    s.append("    { 0x");
    push_hex_w(s, b.base_address, 8);
    s.append(", 0x");
    push_hex_w(s, b.base_address + 0x1000, 8);
    s.append(", 0x1000 }, // ");
    s.append(b.id.as_str());
    s.append("\n");
    assert(s@ =~= old(s)@ + boot_mmio_line(*b));
}

fn push_boot_dram(s: &mut String, regions: &Vec<MemoryRegion>)
    ensures
        final(s)@ == old(s)@ + boot_dram_text(regions@),
{
    s.append(BOOT_DRAM_HEAD);
    if regions.len() > 0 {
        push_dec(s, regions[0].size / 1048576);
        s.append(" MB at 0x");
        push_hex_w(s, regions[0].base, 8);
    } else {
        push_dec(s, 0);
        s.append(" MB at 0x");
    }
    s.append(BOOT_DRAM_TAIL);
    assert(s@ =~= old(s)@ + boot_dram_text(regions@));
}

impl BootloaderGenerator {
    /// The bootloader: clocks, memory, MMU, the MMIO relocation map (each
    /// block moved up by 4 KiB), firmware copy and jump.
    pub fn generate(&self, spec: &SynthesizedSpec) -> (code: String)
        requires
            boot_relocatable(spec.original.blocks@),
        ensures
            code@ == bootloader_text(spec.original),
    {
        let hw = &spec.original;
        let mut code = String::new();
        code.append(BOOT_PROLOGUE);
        code.append(BOOT_MAIN);
        code.append(BOOT_CLOCK_HEAD);
        push_dec(&mut code, hw.cpu.clock_mhz as u64);
        code.append(BOOT_CLOCK_TAIL);
        push_boot_dram(&mut code, &hw.memory.regions);
        code.append(BOOT_MMU);
        code.append(BOOT_MMIO_HEAD);
        let ghost head = code@;
        let blocks = &hw.blocks;
        assert(blocks@.subrange(0, 0) =~= Seq::<FunctionalBlock>::empty());
        assert(code@ =~= head + boot_mmio_lines(blocks@.subrange(0, 0)));
        let mut i: usize = 0;
        while i < blocks.len()
            invariant
                i <= blocks@.len(),
                boot_relocatable(blocks@),
                code@ == head + boot_mmio_lines(blocks@.subrange(0, i as int)),
            decreases blocks@.len() - i,
        {
            push_boot_mmio_line(&mut code, &blocks[i]);
            proof {
                let sub = blocks@.subrange(0, i as int + 1);
                assert(sub.drop_last() =~= blocks@.subrange(0, i as int));
                assert(sub.last() == blocks@[i as int]);
            }
            assert(code@ =~= head + boot_mmio_lines(blocks@.subrange(0, i as int + 1)));
            i = i + 1;
        }
        assert(blocks@.subrange(0, i as int) =~= blocks@);
        code.append(BOOT_MMIO_TAIL);
        code.append(BOOT_LOADER);
        assert(code@ =~= bootloader_text(spec.original));
        code
    }
}

// ---------------------------------------------------------------------------
// HAL
// ---------------------------------------------------------------------------

/// Generator of the MMIO translation layer.
pub struct HalGenerator;

/// Each block's target window (1 MiB up) lies below 2^64.
pub open spec fn hal_relocatable(bs: Seq<FunctionalBlock>) -> bool {
    forall|i: int| 0 <= i < bs.len() ==> (#[trigger] bs[i]).base_address + 0x100000 <= u64::MAX
}

/// Translation strategy of a block kind: 0 = MMU mapping, 1 = trap, 2 = PIO.
pub open spec fn strategy(k: BlockKind) -> nat {
    match k {
        BlockKind::Dma => 0,
        BlockKind::Gpu => 1,
        BlockKind::Audio => 2,
        _ => 1,
    }
}

/// One row of the HAL translation table: the block moves up by 1 MiB.
pub open spec fn hal_table_line(b: FunctionalBlock) -> Seq<char> {
    "    { 0x"@ + hex_w(b.base_address as nat, 8) + ", 0x"@ + hex_w(b.size as nat, 4) + ", 0x"@ + hex_w(
        b.base_address as nat + 0x100000,
        8,
    ) + ", "@ + dec(strategy(b.kind)) + " }, // "@ + b.id@ + "\n"@
}

/// Rows of the HAL translation table.
pub open spec fn hal_table_lines(bs: Seq<FunctionalBlock>) -> Seq<char>
    decreases bs.len(),
{
    if bs.len() == 0 {
        Seq::empty()
    } else {
        hal_table_lines(bs.drop_last()) + hal_table_line(bs.last())
    }
}

/// Name shown for a register.
pub open spec fn reg_name_or(r: Register, fallback: Seq<char>) -> Seq<char> {
    match r.name {
        Some(n) => n@,
        None => fallback,
    }
}

/// One `case` of the GPU handler.
pub open spec fn gpu_case(r: Register) -> Seq<char> {
    "        case 0x"@ + hex_w(r.offset as nat, 4) + ": /* "@ + reg_name_or(r, "unknown"@) + " */\n"@
        + HAL_GPU_CASE_BODY@
}

/// The cases of the GPU handler.
pub open spec fn gpu_cases(rs: Seq<Register>) -> Seq<char>
    decreases rs.len(),
{
    if rs.len() == 0 {
        Seq::empty()
    } else {
        gpu_cases(rs.drop_last()) + gpu_case(rs.last())
    }
}

/// The block-specific write handler (GPU, audio and DMA blocks have one).
pub open spec fn block_handler(b: FunctionalBlock) -> Seq<char> {
    match b.kind {
        BlockKind::Gpu => "// GPU Handler ("@ + b.id@ + ") @ 0x"@ + hex_w(b.base_address as nat, 8)
            + "\n"@ + HAL_GPU_OPEN@ + gpu_cases(b.registers@) + HAL_GPU_CLOSE@,
        BlockKind::Audio => "// Audio Handler ("@ + b.id@ + ") \u{2014} I2S via PIO\n"@ + HAL_AUDIO_BODY@,
        BlockKind::Dma => "// DMA Handler ("@ + b.id@ + ") \u{2014} RP2350 DMA channel\n"@ + HAL_DMA_BODY@,
        _ => Seq::empty(),
    }
}

/// The block handlers of a list of blocks.
pub open spec fn block_handlers(bs: Seq<FunctionalBlock>) -> Seq<char>
    decreases bs.len(),
{
    if bs.len() == 0 {
        Seq::empty()
    } else {
        block_handlers(bs.drop_last()) + block_handler(bs.last())
    }
}

/// The HAL for `target`.
pub open spec fn hal_text(spec: HardwareSpec, target: Seq<char>) -> Seq<char> {
    HAL_HEAD@ + target + HAL_INCLUDES@ + HAL_PREAMBLE@ + HAL_TABLE_HEAD@ + hal_table_lines(spec.blocks@)
        + HAL_TABLE_TAIL@ + HAL_READ@ + HAL_WRITE@ + block_handlers(spec.blocks@)
}

/// The C strategy code the HAL's handlers give a block kind: `0` MMU mapping
/// for DMA, `2` PIO emulation for audio (I2S through the PIO), `1` the trap
/// handler for every other kind.
pub open spec fn translation_code(k: BlockKind) -> nat {
    if k is Dma {
        0
    } else if k is Audio {
        2
    } else {
        1
    }
}

proof fn lemma_table_rows_hold(bs: Seq<FunctionalBlock>, i: int)
    requires
        0 <= i < bs.len(),
    ensures
        occurs_in(hal_table_line(bs[i]), hal_table_lines(bs)),
    decreases bs.len(),
{
    let init = bs.drop_last();
    if i == bs.len() - 1 {
        lemma_occurs_self(hal_table_line(bs[i]));
        lemma_occurs_around(hal_table_line(bs[i]), hal_table_lines(init), hal_table_line(bs[i]), Seq::empty());
        assert(hal_table_lines(init) + hal_table_line(bs[i]) + Seq::<char>::empty() =~= hal_table_lines(bs));
    } else {
        assert(init[i] == bs[i]);
        lemma_table_rows_hold(init, i);
        lemma_occurs_around(hal_table_line(bs[i]), Seq::empty(), hal_table_lines(init), hal_table_line(bs.last()));
        assert(Seq::<char>::empty() + hal_table_lines(init) + hal_table_line(bs.last()) =~= hal_table_lines(bs));
    }
}

/// Every block has its row in the HAL translation table: its base, its size,
/// its base moved up 1 MiB, and the strategy code of its kind (0 MMU for DMA,
/// 2 PIO for audio, 1 trap otherwise), followed by its id.
pub proof fn lemma_hal_rows(spec: HardwareSpec, target: Seq<char>, i: int)
    requires
        0 <= i < spec.blocks@.len(),
    ensures
        ({
            let b = spec.blocks@[i];
            occurs_in(
                "    { 0x"@ + hex_w(b.base_address as nat, 8) + ", 0x"@ + hex_w(b.size as nat, 4) + ", 0x"@
                    + hex_w(b.base_address as nat + 0x100000, 8) + ", "@ + dec(translation_code(b.kind))
                    + " }, // "@ + b.id@ + "\n"@,
                hal_text(spec, target),
            )
        }),
{
    let bs = spec.blocks@;
    lemma_table_rows_hold(bs, i);
    let before = HAL_HEAD@ + target + HAL_INCLUDES@ + HAL_PREAMBLE@ + HAL_TABLE_HEAD@;
    let after = HAL_TABLE_TAIL@ + HAL_READ@ + HAL_WRITE@ + block_handlers(bs);
    lemma_occurs_around(hal_table_line(bs[i]), before, hal_table_lines(bs), after);
    assert(before + hal_table_lines(bs) + after =~= hal_text(spec, target));
}

fn push_hal_table_line(s: &mut String, b: &FunctionalBlock)
    requires
        b.base_address + 0x100000 <= u64::MAX,
    ensures
        final(s)@ == old(s)@ + hal_table_line(*b),
{
    let strat: u64 = match b.kind {
        BlockKind::Dma => 0,
        BlockKind::Gpu => 1,
        BlockKind::Audio => 2,
        _ => 1,
    };
    s.append("    { 0x");
    push_hex_w(s, b.base_address, 8);
    s.append(", 0x");
    push_hex_w(s, b.size, 4);
    s.append(", 0x");
    push_hex_w(s, b.base_address + 0x100000, 8);
    s.append(", ");
    push_dec(s, strat);
    s.append(" }, // ");
    s.append(b.id.as_str());
    s.append("\n");
    assert(s@ =~= old(s)@ + hal_table_line(*b));
}

fn push_gpu_case(s: &mut String, r: &Register)
    ensures
        final(s)@ == old(s)@ + gpu_case(*r),
{
    s.append("        case 0x");
    push_hex_w(s, r.offset, 4);
    s.append(": /* ");
    match &r.name {
        Some(n) => s.append(n.as_str()),
        None => s.append("unknown"),
    }
    s.append(" */\n");
    s.append(HAL_GPU_CASE_BODY);
    assert(s@ =~= old(s)@ + gpu_case(*r));
}

fn push_block_handler(s: &mut String, b: &FunctionalBlock)
    ensures
        final(s)@ == old(s)@ + block_handler(*b),
{
    match b.kind {
        BlockKind::Gpu => {
            s.append("// GPU Handler (");
            s.append(b.id.as_str());
            s.append(") @ 0x");
            push_hex_w(s, b.base_address, 8);
            s.append("\n");
            s.append(HAL_GPU_OPEN);
            let ghost head = s@;
            let regs = &b.registers;
            assert(regs@.subrange(0, 0) =~= Seq::<Register>::empty());
            assert(s@ =~= head + gpu_cases(regs@.subrange(0, 0)));
            let mut i: usize = 0;
            while i < regs.len()
                invariant
                    i <= regs@.len(),
                    s@ == head + gpu_cases(regs@.subrange(0, i as int)),
                decreases regs@.len() - i,
            {
                push_gpu_case(s, &regs[i]);
                proof {
                    let sub = regs@.subrange(0, i as int + 1);
                    assert(sub.drop_last() =~= regs@.subrange(0, i as int));
                    assert(sub.last() == regs@[i as int]);
                }
                assert(s@ =~= head + gpu_cases(regs@.subrange(0, i as int + 1)));
                i = i + 1;
            }
            assert(regs@.subrange(0, i as int) =~= regs@);
            s.append(HAL_GPU_CLOSE);
        },
        BlockKind::Audio => {
            s.append("// Audio Handler (");
            s.append(b.id.as_str());
            s.append(") \u{2014} I2S via PIO\n");
            s.append(HAL_AUDIO_BODY);
        },
        BlockKind::Dma => {
            s.append("// DMA Handler (");
            s.append(b.id.as_str());
            s.append(") \u{2014} RP2350 DMA channel\n");
            s.append(HAL_DMA_BODY);
        },
        _ => {},
    }
    assert(s@ =~= old(s)@ + block_handler(*b));
}

impl HalGenerator {
    /// The MMIO translation layer for `target`: a table moving each block up
    /// by 1 MiB with its strategy, read/write dispatch, and one handler per
    /// GPU, audio or DMA block.
    pub fn generate(&self, spec: &SynthesizedSpec, target: &str) -> (code: String)
        requires
            hal_relocatable(spec.original.blocks@),
        ensures
            code@ == hal_text(spec.original, target@),
    {
        let blocks = &spec.original.blocks;
        let mut code = String::new();
        code.append(HAL_HEAD);
        code.append(target);
        code.append(HAL_INCLUDES);
        code.append(HAL_PREAMBLE);
        code.append(HAL_TABLE_HEAD);
        let ghost head = code@;
        assert(blocks@.subrange(0, 0) =~= Seq::<FunctionalBlock>::empty());
        assert(code@ =~= head + hal_table_lines(blocks@.subrange(0, 0)));
        let mut i: usize = 0;
        while i < blocks.len()
            invariant
                i <= blocks@.len(),
                hal_relocatable(blocks@),
                code@ == head + hal_table_lines(blocks@.subrange(0, i as int)),
            decreases blocks@.len() - i,
        {
            push_hal_table_line(&mut code, &blocks[i]);
            proof {
                let sub = blocks@.subrange(0, i as int + 1);
                assert(sub.drop_last() =~= blocks@.subrange(0, i as int));
                assert(sub.last() == blocks@[i as int]);
            }
            assert(code@ =~= head + hal_table_lines(blocks@.subrange(0, i as int + 1)));
            i = i + 1;
        }
        assert(blocks@.subrange(0, i as int) =~= blocks@);
        code.append(HAL_TABLE_TAIL);
        code.append(HAL_READ);
        code.append(HAL_WRITE);
        let ghost head2 = code@;
        assert(code@ =~= head2 + block_handlers(blocks@.subrange(0, 0)));
        let mut j: usize = 0;
        while j < blocks.len()
            invariant
                j <= blocks@.len(),
                code@ == head2 + block_handlers(blocks@.subrange(0, j as int)),
            decreases blocks@.len() - j,
        {
            push_block_handler(&mut code, &blocks[j]);
            proof {
                let sub = blocks@.subrange(0, j as int + 1);
                assert(sub.drop_last() =~= blocks@.subrange(0, j as int));
                assert(sub.last() == blocks@[j as int]);
            }
            assert(code@ =~= head2 + block_handlers(blocks@.subrange(0, j as int + 1)));
            j = j + 1;
        }
        assert(blocks@.subrange(0, j as int) =~= blocks@);
        assert(code@ =~= hal_text(spec.original, target@));
        code
    }
}

// ---------------------------------------------------------------------------
// Interrupts
// ---------------------------------------------------------------------------

/// Generator of the interrupt translation table.
pub struct IrqGenerator;

/// One row of the interrupt table: vectors map 1:1; level-triggered lines
/// need an acknowledge.
pub open spec fn irq_line(irq: InterruptSpec) -> Seq<char> {
    "    { "@ + dec(irq.vector as nat) + ", "@ + dec(irq.vector as nat) + ", \""@ + irq.owner@ + "\", "@
        + (if irq.irq_type == IrqType::Edge { "false"@ } else { "true"@ }) + " },\n"@
}

/// Rows of the interrupt table.
pub open spec fn irq_lines(irqs: Seq<InterruptSpec>) -> Seq<char>
    decreases irqs.len(),
{
    if irqs.len() == 0 {
        Seq::empty()
    } else {
        irq_lines(irqs.drop_last()) + irq_line(irqs.last())
    }
}

/// The interrupt table, dispatcher and initialization.
pub open spec fn irq_text(spec: HardwareSpec) -> Seq<char> {
    IRQ_HEAD@ + irq_lines(spec.interrupts@) + IRQ_TAIL@
}

fn push_irq_line(s: &mut String, irq: &InterruptSpec)
    ensures
        final(s)@ == old(s)@ + irq_line(*irq),
{
    s.append("    { ");
    push_dec(s, irq.vector as u64);
    s.append(", ");
    push_dec(s, irq.vector as u64);
    s.append(", \"");
    s.append(irq.owner.as_str());
    s.append("\", ");
    match irq.irq_type {
        IrqType::Edge => s.append("false"),
        IrqType::Level => s.append("true"),
    }
    s.append(" },\n");
    assert(s@ =~= old(s)@ + irq_line(*irq));
}

impl IrqGenerator {
    /// The interrupt translation table (one row per interrupt), its
    /// dispatcher and initialization.
    pub fn generate(&self, spec: &SynthesizedSpec) -> (code: String)
        ensures
            code@ == irq_text(spec.original),
    {
        let irqs = &spec.original.interrupts;
        let mut code = String::new();
        code.append(IRQ_HEAD);
        let ghost head = code@;
        assert(code@ =~= head + irq_lines(irqs@.subrange(0, 0)));
        let mut i: usize = 0;
        while i < irqs.len()
            invariant
                i <= irqs@.len(),
                code@ == head + irq_lines(irqs@.subrange(0, i as int)),
            decreases irqs@.len() - i,
        {
            push_irq_line(&mut code, &irqs[i]);
            proof {
                let sub = irqs@.subrange(0, i as int + 1);
                assert(sub.drop_last() =~= irqs@.subrange(0, i as int));
                assert(sub.last() == irqs@[i as int]);
            }
            assert(code@ =~= head + irq_lines(irqs@.subrange(0, i as int + 1)));
            i = i + 1;
        }
        assert(irqs@.subrange(0, i as int) =~= irqs@);
        code.append(IRQ_TAIL);
        assert(code@ =~= irq_text(spec.original));
        code
    }
}

// ---------------------------------------------------------------------------
// Timing
// ---------------------------------------------------------------------------

/// Generator of timing compensation.
pub struct TimingCompensation;

/// The compensation of a block with a processing latency: a comment with the
/// average, and a delay of the average in whole microseconds when non-zero.
pub open spec fn delay_text(b: FunctionalBlock) -> Seq<char> {
    match b.timing.processing {
        Some(p) => "    // "@ + b.id@ + ": original avg latency = "@ + dec(p.avg_ns as nat) + "ns\n"@ + (if p.avg_ns
            / 1000 > 0 {
            "    delay_us("@ + dec((p.avg_ns / 1000) as nat) + ");\n"@
        } else {
            Seq::empty()
        }),
        None => Seq::empty(),
    }
}

/// Compensations of a list of blocks.
pub open spec fn delay_texts(bs: Seq<FunctionalBlock>) -> Seq<char>
    decreases bs.len(),
{
    if bs.len() == 0 {
        Seq::empty()
    } else {
        delay_texts(bs.drop_last()) + delay_text(bs.last())
    }
}

/// The timing-table row of a block with an activation latency.
pub open spec fn timing_row(b: FunctionalBlock) -> Seq<char> {
    match b.timing.activation {
        Some(t) => "    { \""@ + b.id@ + "\", "@ + dec(t.min_ns as nat) + ", "@ + dec(t.max_ns as nat) + ", "@
            + dec(t.avg_ns as nat) + " },\n"@,
        None => Seq::empty(),
    }
}

/// Timing-table rows of a list of blocks.
pub open spec fn timing_rows(bs: Seq<FunctionalBlock>) -> Seq<char>
    decreases bs.len(),
{
    if bs.len() == 0 {
        Seq::empty()
    } else {
        timing_rows(bs.drop_last()) + timing_row(bs.last())
    }
}

/// Timing compensation code and the original timing table.
pub open spec fn timing_text(spec: HardwareSpec) -> Seq<char> {
    TIMING_HEAD@ + delay_texts(spec.blocks@) + TIMING_MID@ + timing_rows(spec.blocks@) + TIMING_TAIL@
}

fn push_delay_text(s: &mut String, b: &FunctionalBlock)
    ensures
        final(s)@ == old(s)@ + delay_text(*b),
{
    match &b.timing.processing {
        Some(p) => {
            let delay = p.avg_ns / 1000;
            s.append("    // ");
            s.append(b.id.as_str());
            s.append(": original avg latency = ");
            push_dec(s, p.avg_ns);
            s.append("ns\n");
            if delay > 0 {
                s.append("    delay_us(");
                push_dec(s, delay);
                s.append(");\n");
            }
        },
        None => {},
    }
    assert(s@ =~= old(s)@ + delay_text(*b));
}

fn push_timing_row(s: &mut String, b: &FunctionalBlock)
    ensures
        final(s)@ == old(s)@ + timing_row(*b),
{
    match &b.timing.activation {
        Some(t) => {
            s.append("    { \"");
            s.append(b.id.as_str());
            s.append("\", ");
            push_dec(s, t.min_ns);
            s.append(", ");
            push_dec(s, t.max_ns);
            s.append(", ");
            push_dec(s, t.avg_ns);
            s.append(" },\n");
        },
        None => {},
    }
    assert(s@ =~= old(s)@ + timing_row(*b));
}

impl TimingCompensation {
    /// Delays that slow the new hardware down to the original processing
    /// latencies, and the table of original activation latencies.
    pub fn generate(&self, spec: &SynthesizedSpec) -> (code: String)
        ensures
            code@ == timing_text(spec.original),
    {
        let blocks = &spec.original.blocks;
        let mut code = String::new();
        code.append(TIMING_HEAD);
        let ghost head = code@;
        assert(code@ =~= head + delay_texts(blocks@.subrange(0, 0)));
        let mut i: usize = 0;
        while i < blocks.len()
            invariant
                i <= blocks@.len(),
                code@ == head + delay_texts(blocks@.subrange(0, i as int)),
            decreases blocks@.len() - i,
        {
            push_delay_text(&mut code, &blocks[i]);
            proof {
                let sub = blocks@.subrange(0, i as int + 1);
                assert(sub.drop_last() =~= blocks@.subrange(0, i as int));
                assert(sub.last() == blocks@[i as int]);
            }
            assert(code@ =~= head + delay_texts(blocks@.subrange(0, i as int + 1)));
            i = i + 1;
        }
        assert(blocks@.subrange(0, i as int) =~= blocks@);
        code.append(TIMING_MID);
        let ghost head2 = code@;
        assert(code@ =~= head2 + timing_rows(blocks@.subrange(0, 0)));
        let mut j: usize = 0;
        while j < blocks.len()
            invariant
                j <= blocks@.len(),
                code@ == head2 + timing_rows(blocks@.subrange(0, j as int)),
            decreases blocks@.len() - j,
        {
            push_timing_row(&mut code, &blocks[j]);
            proof {
                let sub = blocks@.subrange(0, j as int + 1);
                assert(sub.drop_last() =~= blocks@.subrange(0, j as int));
                assert(sub.last() == blocks@[j as int]);
            }
            assert(code@ =~= head2 + timing_rows(blocks@.subrange(0, j as int + 1)));
            j = j + 1;
        }
        assert(blocks@.subrange(0, j as int) =~= blocks@);
        code.append(TIMING_TAIL);
        assert(code@ =~= timing_text(spec.original));
        code
    }
}

// ---------------------------------------------------------------------------
// Drivers, build system, linker script
// ---------------------------------------------------------------------------

/// Generator of drivers and build files.
pub struct DriverGenerator;

/// The driver of an interface ("spi", "i2c", "uart", "usb", "gpio"; others
/// get none).
pub open spec fn driver_text(interface: Seq<char>) -> Seq<char> {
    if interface == "spi"@ {
        SPI_DRIVER@
    } else if interface == "i2c"@ {
        I2C_DRIVER@
    } else if interface == "uart"@ {
        UART_DRIVER@
    } else if interface == "usb"@ {
        USB_DRIVER@
    } else if interface == "gpio"@ {
        GPIO_DRIVER@
    } else {
        Seq::empty()
    }
}

/// Drivers of a list of assignments.
pub open spec fn driver_texts(assignments: Seq<ComponentAssignment>) -> Seq<char>
    decreases assignments.len(),
{
    if assignments.len() == 0 {
        Seq::empty()
    } else {
        driver_texts(assignments.drop_last()) + driver_text(assignments.last().interface@)
    }
}

fn push_driver(s: &mut String, interface: &str)
    ensures
        final(s)@ == old(s)@ + driver_text(interface@),
{
    if str_eq(interface, "spi") {
        s.append(SPI_DRIVER);
    } else if str_eq(interface, "i2c") {
        s.append(I2C_DRIVER);
    } else if str_eq(interface, "uart") {
        s.append(UART_DRIVER);
    } else if str_eq(interface, "usb") {
        s.append(USB_DRIVER);
    } else if str_eq(interface, "gpio") {
        s.append(GPIO_DRIVER);
    }
    assert(s@ =~= old(s)@ + driver_text(interface@));
}

impl DriverGenerator {
    /// Bare-metal drivers, one per assignment whose interface has a driver.
    pub fn generate_baremetal(&self, spec: &SynthesizedSpec) -> (code: String)
        ensures
            code@ == DRIVERS_HEAD@ + driver_texts(spec.assignments@),
    {
        let asg = &spec.assignments;
        let mut code = String::new();
        code.append(DRIVERS_HEAD);
        let ghost head = code@;
        assert(code@ =~= head + driver_texts(asg@.subrange(0, 0)));
        let mut i: usize = 0;
        while i < asg.len()
            invariant
                i <= asg@.len(),
                code@ == head + driver_texts(asg@.subrange(0, i as int)),
            decreases asg@.len() - i,
        {
            push_driver(&mut code, asg[i].interface.as_str());
            proof {
                let sub = asg@.subrange(0, i as int + 1);
                assert(sub.drop_last() =~= asg@.subrange(0, i as int));
                assert(sub.last() == asg@[i as int]);
            }
            assert(code@ =~= head + driver_texts(asg@.subrange(0, i as int + 1)));
            i = i + 1;
        }
        assert(asg@.subrange(0, i as int) =~= asg@);
        code
    }

    /// The Makefile of the generated firmware.
    pub fn generate_build_system(&self, spec: &SynthesizedSpec) -> (mk: String)
        ensures
            mk@ == MAKEFILE@,
    {
        let mut mk = String::new();
        mk.append(MAKEFILE);
        mk
    }

    /// The linker script of the generated firmware (flash, SRAM, PSRAM).
    pub fn generate_linker_script(&self, spec: &SynthesizedSpec) -> (ld: String)
        ensures
            ld@ == LINKER_SCRIPT@,
    {
        let mut ld = String::new();
        ld.append(LINKER_SCRIPT);
        ld
    }
}

} // verus!
