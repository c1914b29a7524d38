pub mod bilinear_transform;
