use gas_network::bytes::{
    frame_payload, read_string, read_timestamp, read_u16, read_u64, read_u8, ByteCursor, ByteVec,
    TimeStamp, FAILURE, SUCCESS,
};
use gas_network::fmt::get_timestamp;

#[test]
fn test_constants() {
    assert_eq!(SUCCESS, 0);
    assert_eq!(FAILURE, 1);
}

#[test]
fn test_byte_vec_extend_from_string() {
    let mut buffer: Vec<u8> = Vec::new();
    let text = "Hola".to_string();

    buffer.extend_from_string(&text);

    // Estructura esperada:
    // 8 bytes de longitud (4 en big endian) + bytes del string
    // 0, 0, 0, 0, 0, 0, 0, 4, 'H', 'o', 'l', 'a'

    assert_eq!(buffer.len(), 12); // 8 + 4

    // Verificar longitud escrita
    let len_bytes = &buffer[0..8];
    assert_eq!(u64::from_be_bytes(len_bytes.try_into().unwrap()), 4);

    // Verificar contenido
    assert_eq!(&buffer[8..], "Hola".as_bytes());
}

#[test]
fn test_read_u8_success() {
    let data = vec![255];
    let mut cursor = ByteCursor::new(data);

    let result = read_u8(&mut cursor);
    assert_eq!(result.unwrap(), 255);
}

#[test]
fn test_read_u8_error_eof() {
    let data = vec![]; // Vacío
    let mut cursor = ByteCursor::new(data);

    let result = read_u8(&mut cursor);
    assert_eq!(result, Err("error when reading u8"));
}

#[test]
fn test_read_u16_success() {
    // 513 en Big Endian = [0x02, 0x01] -> (2 * 256) + 1
    let data = vec![2, 1];
    let mut cursor = ByteCursor::new(data);

    let result = read_u16(&mut cursor);
    assert_eq!(result.unwrap(), 513);
}

#[test]
fn test_read_u64_success() {
    let val: u64 = 1234567890;
    let data = val.to_be_bytes().to_vec();
    let mut cursor = ByteCursor::new(data);

    let result = read_u64(&mut cursor);
    assert_eq!(result.unwrap(), val);
}

#[test]
fn test_read_timestamp_success() {
    let val: TimeStamp = 1600000000;
    let data = val.to_be_bytes().to_vec();
    let mut cursor = ByteCursor::new(data);

    let result = read_timestamp(&mut cursor);
    assert_eq!(result.unwrap(), val);
}

#[test]
fn test_read_string_success() {
    let text = "Rust";
    let data = text.as_bytes().to_vec();
    let mut cursor = ByteCursor::new(data);

    // Debemos pasar la longitud exacta
    let result = read_string(&mut cursor, 4);
    assert_eq!(result.unwrap(), "Rust");
}

#[test]
fn test_read_string_error_insufficient_bytes() {
    let text = "Hi";
    let data = text.as_bytes().to_vec();
    let mut cursor = ByteCursor::new(data);

    // Pedimos 10 bytes pero solo hay 2
    let result = read_string(&mut cursor, 10);
    assert_eq!(result, Err("error when reading a string"));
}

#[test]
fn test_frame_payload() {
    let payload = vec![10, 20, 30]; // 3 bytes

    let framed = frame_payload(payload.clone());

    // Esperamos: 8 bytes de longitud + 3 bytes de payload = 11 bytes
    assert_eq!(framed.len(), 11);

    // Verificar cabecera de longitud (8 bytes big endian)
    let len_header = &framed[0..8];
    assert_eq!(u64::from_be_bytes(len_header.try_into().unwrap()), 3);

    // Verificar payload original
    assert_eq!(&framed[8..], &payload[..]);
}

#[test]
fn test_frame_payload_empty() {
    let payload = vec![];
    let framed = frame_payload(payload);

    assert_eq!(framed.len(), 8);
    assert_eq!(u64::from_be_bytes(framed[0..8].try_into().unwrap()), 0);
}

#[test]
fn test_get_timestamp_format() {
    let ts = get_timestamp();

    // El formato es HH:MM:SS.mmm (ej: "14:30:01.123")
    // Longitud total: 2 + 1 + 2 + 1 + 2 + 1 + 3 = 12 caracteres
    assert_eq!(ts.len(), 12);

    // Verificar que contiene los separadores
    assert_eq!(ts.chars().nth(2), Some(':'));
    assert_eq!(ts.chars().nth(5), Some(':'));
    assert_eq!(ts.chars().nth(8), Some('.'));

    // Verificar que son dígitos
    let parts: Vec<&str> = ts.split(|c| c == ':' || c == '.').collect();
    assert_eq!(parts.len(), 4); // HH, MM, SS, mmm

    assert!(parts[0].parse::<u32>().is_ok()); // Horas
    assert!(parts[1].parse::<u32>().is_ok()); // Minutos
    assert!(parts[2].parse::<u32>().is_ok()); // Segundos
    assert!(parts[3].parse::<u32>().is_ok()); // Milisegundos
}
