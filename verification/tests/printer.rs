use async_channels::printer::Printer3D;

#[test]
fn test_printer3d() {
    let printer = Printer3D::new();
    let printer = printer.start();
    let _ = match printer.print(false) {
        Ok(printer) => printer.retrieve(),
        Err(printer) => printer.reset(),
    };
}

#[test]
fn test_printer3d_out_of_filament() {
    let printer = Printer3D::new().start();
    let printer = match printer.print(true) {
        Ok(printer) => printer.retrieve(),
        Err(printer) => printer.reset(),
    };
    // after the reset the machine is idle again and can take the next job
    let _ = printer.start();
}
