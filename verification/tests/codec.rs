use stegano_rs::decoder::Decoder;
use stegano_rs::encoder::Encoder;

#[test]
fn encoder_it_works() {
    let source = String::from("this is some source string to encode the message into");
    let message = String::from("four");

    let mut enc = Encoder::new(source.into_bytes(), message.into_bytes()).unwrap();

    let byte_count = enc.encode().unwrap();
    println!("{:?}", byte_count);
}

#[test]
fn decoder_it_works() {
    let source = String::from("this is some source string to encode the message into");
    let message = String::from("four");

    let mut enc = Encoder::new(source.into_bytes(), message.as_bytes().to_vec()).unwrap();

    let byte_count = enc.encode().unwrap();
    println!("{:?}", byte_count);

    // now try and decode
    let mut dec = Decoder::new(enc.into_source()).unwrap();
    let dec_message = dec.decode().unwrap();

    println!("{:?}", &dec_message);

    assert_eq!(&dec_message[..], &message.as_bytes()[..]);

    println!("{:?}", String::from_utf8(dec_message).unwrap());
}
